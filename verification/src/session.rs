//! The query session: one snapshot request as a verified state machine.
//!
//! The caller owns the network.  A session validates the address up front
//! (so an invalid address provably causes no query), then hands out one
//! query at a time — first the native balance, then one per registry entry —
//! and consumes the results.  Every transition is specified, whatever the
//! chain answers.

use vstd::prelude::*;

use crate::address::{address_bytes, parse_address, valid_address, AccountAddress};
use crate::amount::RawAmount;
use crate::format::{format_scaled, format_spec};
use crate::types::{
    invalid_contract_cause, make_invalid_contract_cause, token_balance_model, FailurePolicy,
    PartialFailure, PartialFailureModel, Snapshot, SnapshotError, SnapshotErrorModel,
    TokenBalance, TokenBalanceModel, TokenDescriptor, TokenDescriptorModel, WalletData,
    NATIVE_DECIMALS,
};

verus! {

/// A token query the caller must run: `balanceOf(address)` and `decimals()`
/// against the given twenty-byte contract address.
pub struct TokenQuery {
    pub index: usize,
    pub contract: Vec<u8>,
}

/// What examining the next registry entry yielded.
pub enum TokenStep {
    /// Every entry has been examined.
    NoneLeft,
    /// The entry was consumed without a query (bad contract address); under
    /// the fail-fast policy the session is now failed.
    Skipped,
    /// The entry needs this query; feed the result to `provide_token`.
    Query(TokenQuery),
}

/// One snapshot request in progress.
pub struct Session {
    address: AccountAddress,
    registry: Vec<TokenDescriptor>,
    policy: FailurePolicy,
    eth_balance: Option<String>,
    next_index: usize,
    pending: Option<usize>,
    token_balances: Vec<TokenBalance>,
    partial_failures: Vec<PartialFailure>,
    error: Option<SnapshotError>,
}

impl Session {
    /// The registry, as models, in its given order.
    pub closed spec fn registry_model(self) -> Seq<TokenDescriptorModel> {
        self.registry@.map_values(|d: TokenDescriptor| d@)
    }

    /// The active failure policy.
    pub closed spec fn policy_spec(self) -> FailurePolicy {
        self.policy
    }

    /// The validated address text.
    pub closed spec fn address_model(self) -> Seq<char> {
        self.address.text_spec()
    }

    /// The formatted native balance, once provided.
    pub closed spec fn eth_model(self) -> Option<Seq<char>> {
        match self.eth_balance {
            Some(s) => Some(s@),
            None => None,
        }
    }

    /// How many registry entries have been examined.
    pub closed spec fn next_index_spec(self) -> int {
        self.next_index as int
    }

    /// The entry whose query is outstanding, if any.
    pub closed spec fn pending_spec(self) -> Option<int> {
        match self.pending {
            Some(i) => Some(i as int),
            None => None,
        }
    }

    /// The nonzero balances collected so far, in registry order.
    pub closed spec fn balances_model(self) -> Seq<TokenBalanceModel> {
        self.token_balances@.map_values(|b: TokenBalance| b@)
    }

    /// The failures tolerated so far (partial policy only).
    pub closed spec fn failures_model(self) -> Seq<PartialFailureModel> {
        self.partial_failures@.map_values(|f: PartialFailure| f@)
    }

    /// The terminal error, once one occurred.
    pub closed spec fn error_model(self) -> Option<SnapshotErrorModel> {
        match self.error {
            Some(e) => Some(e@),
            None => None,
        }
    }

    /// Internal consistency of the session.
    pub closed spec fn wf(self) -> bool {
        &&& self.address.wf()
        &&& valid_address(self.address.text_spec())
        &&& self.next_index <= self.registry@.len()
        &&& match self.pending {
            Some(i) => i < self.registry@.len() && self.next_index == i + 1 && valid_address(
                self.registry@[i as int]@.contract_address,
            ),
            None => true,
        }
    }

    /// Starts a request: validates the address and otherwise does nothing.
    /// An invalid address is rejected here, before any query exists.
    pub fn new(address: &str, registry: Vec<TokenDescriptor>, policy: FailurePolicy) -> (r: Result<
        Session,
        SnapshotError,
    >)
        ensures
            r is Ok <==> valid_address(address@),
            r matches Err(e) ==> e@ is InvalidAddress,
            r matches Ok(s) ==> s.wf() && s.address_model() == address@ && s.registry_model()
                == registry@.map_values(|d: TokenDescriptor| d@) && s.policy_spec() == policy
                && s.eth_model() is None && s.next_index_spec() == 0 && s.pending_spec() is None
                && s.balances_model() == Seq::<TokenBalanceModel>::empty() && s.failures_model()
                == Seq::<PartialFailureModel>::empty() && s.error_model() is None,
    {
        match parse_address(address) {
            None => Err(SnapshotError::InvalidAddress),
            Some(a) => {
                let s = Session {
                    address: a,
                    registry,
                    policy,
                    eth_balance: None,
                    next_index: 0,
                    pending: None,
                    token_balances: Vec::new(),
                    partial_failures: Vec::new(),
                    error: None,
                };
                proof {
                    assert(s.balances_model() =~= Seq::<TokenBalanceModel>::empty());
                    assert(s.failures_model() =~= Seq::<PartialFailureModel>::empty());
                }
                Ok(s)
            },
        }
    }

    /// The twenty bytes of the account whose native balance must be queried.
    pub fn address_bytes(&self) -> (b: &Vec<u8>)
        requires
            self.wf(),
        ensures
            b@ == address_bytes(self.address_model()),
    {
        self.address.bytes()
    }

    /// True once the session has failed terminally.
    pub fn has_failed(&self) -> (r: bool)
        ensures
            r <==> self.error_model() is Some,
    {
        match &self.error {
            Some(_) => true,
            None => false,
        }
    }

    /// Records the native balance query's outcome.  Success fixes the
    /// formatted native balance; failure ends the whole request.
    pub fn provide_native(&mut self, result: &Result<RawAmount, String>)
        requires
            old(self).wf(),
            old(self).eth_model() is None,
            old(self).error_model() is None,
            old(self).pending_spec() is None,
        ensures
            final(self).wf(),
            final(self).registry_model() == old(self).registry_model(),
            final(self).policy_spec() == old(self).policy_spec(),
            final(self).address_model() == old(self).address_model(),
            final(self).next_index_spec() == old(self).next_index_spec(),
            final(self).pending_spec() is None,
            final(self).balances_model() == old(self).balances_model(),
            final(self).failures_model() == old(self).failures_model(),
            result matches Ok(a) ==> (final(self).eth_model() == Some(
                format_spec(a@, NATIVE_DECIMALS as nat),
            ) && final(self).error_model() is None),
            result matches Err(c) ==> (final(self).eth_model() is None && final(self).error_model()
                == Some(SnapshotErrorModel::NativeQueryFailed(c@))),
    {
        match result {
            Ok(a) => {
                self.eth_balance = Some(format_scaled(a, NATIVE_DECIMALS));
            },
            Err(c) => {
                self.error = Some(SnapshotError::NativeQueryFailed(c.clone()));
            },
        }
    }

    /// Examines the next registry entry.  A valid contract address yields
    /// the query to run; an invalid one is a per-item failure: recorded and
    /// passed over under the partial policy, terminal under fail-fast.
    pub fn next_token(&mut self) -> (st: TokenStep)
        requires
            old(self).wf(),
            old(self).eth_model() is Some,
            old(self).error_model() is None,
            old(self).pending_spec() is None,
        ensures
            final(self).wf(),
            final(self).registry_model() == old(self).registry_model(),
            final(self).policy_spec() == old(self).policy_spec(),
            final(self).address_model() == old(self).address_model(),
            final(self).eth_model() == old(self).eth_model(),
            final(self).balances_model() == old(self).balances_model(),
            match st {
                TokenStep::NoneLeft => *final(self) == *old(self) && old(self).next_index_spec()
                    == old(self).registry_model().len(),
                TokenStep::Skipped => {
                    let i = old(self).next_index_spec();
                    &&& i < old(self).registry_model().len()
                    &&& !valid_address(old(self).registry_model()[i].contract_address)
                    &&& final(self).next_index_spec() == i + 1
                    &&& final(self).pending_spec() is None
                    &&& (old(self).policy_spec() == FailurePolicy::Partial ==> final(self).error_model() is None && final(self).failures_model() == old(
                        self,
                    ).failures_model().push(
                        PartialFailureModel {
                            symbol: old(self).registry_model()[i].symbol,
                            cause: invalid_contract_cause(old(self).registry_model()[i].symbol),
                        },
                    ))
                    &&& (old(self).policy_spec() == FailurePolicy::FailFast ==> final(self).error_model() == Some(
                        SnapshotErrorModel::TokenQueryFailed(
                            old(self).registry_model()[i].symbol,
                            invalid_contract_cause(old(self).registry_model()[i].symbol),
                        ),
                    ) && final(self).failures_model() == old(self).failures_model())
                },
                TokenStep::Query(tq) => {
                    let i = old(self).next_index_spec();
                    &&& i < old(self).registry_model().len()
                    &&& tq.index == i
                    &&& valid_address(old(self).registry_model()[i].contract_address)
                    &&& tq.contract@ == address_bytes(
                        old(self).registry_model()[i].contract_address,
                    )
                    &&& final(self).next_index_spec() == i + 1
                    &&& final(self).pending_spec() == Some(i)
                    &&& final(self).error_model() is None
                    &&& final(self).failures_model() == old(self).failures_model()
                },
            },
    {
        if self.next_index >= self.registry.len() {
            return TokenStep::NoneLeft;
        }
        let i = self.next_index;
        let entry_symbol = self.registry[i].symbol.clone();
        match parse_address(self.registry[i].contract_address.as_str()) {
            Some(a) => {
                self.next_index = i + 1;
                self.pending = Some(i);
                let contract = a.into_bytes();
                TokenStep::Query(TokenQuery { index: i, contract })
            },
            None => {
                self.next_index = i + 1;
                let cause = make_invalid_contract_cause(&entry_symbol);
                match self.policy {
                    FailurePolicy::Partial => {
                        self.partial_failures.push(
                            PartialFailure { symbol: entry_symbol, cause },
                        );
                        proof {
                            assert(self.failures_model() =~= old(self).failures_model().push(
                                PartialFailureModel {
                                    symbol: old(self).registry_model()[i as int].symbol,
                                    cause: invalid_contract_cause(
                                        old(self).registry_model()[i as int].symbol,
                                    ),
                                },
                            ));
                        }
                    },
                    FailurePolicy::FailFast => {
                        self.error = Some(SnapshotError::TokenQueryFailed(entry_symbol, cause));
                    },
                }
                TokenStep::Skipped
            },
        }
    }

    /// Records the outcome of the outstanding token query.  A zero balance
    /// is silently omitted; a positive one is appended, formatted, in
    /// registry order; a failure is a per-item failure under the active
    /// policy.
    pub fn provide_token(&mut self, result: &Result<(RawAmount, u8), String>)
        requires
            old(self).wf(),
            old(self).error_model() is None,
            old(self).pending_spec() is Some,
        ensures
            final(self).wf(),
            final(self).registry_model() == old(self).registry_model(),
            final(self).policy_spec() == old(self).policy_spec(),
            final(self).address_model() == old(self).address_model(),
            final(self).eth_model() == old(self).eth_model(),
            final(self).next_index_spec() == old(self).next_index_spec(),
            final(self).pending_spec() is None,
            ({
                let i = old(self).pending_spec().unwrap();
                let d = old(self).registry_model()[i];
                match result {
                    Ok(p) => {
                        &&& final(self).error_model() is None
                        &&& final(self).failures_model() == old(self).failures_model()
                        &&& (p.0@ == 0 ==> final(self).balances_model() == old(
                            self,
                        ).balances_model())
                        &&& (p.0@ > 0 ==> final(self).balances_model() == old(
                            self,
                        ).balances_model().push(token_balance_model(d, p.0@, p.1 as nat)))
                    },
                    Err(c) => {
                        &&& final(self).balances_model() == old(self).balances_model()
                        &&& (old(self).policy_spec() == FailurePolicy::Partial ==> final(self).error_model() is None && final(self).failures_model() == old(
                            self,
                        ).failures_model().push(PartialFailureModel { symbol: d.symbol, cause: c@ }))
                        &&& (old(self).policy_spec() == FailurePolicy::FailFast ==> final(self).error_model() == Some(
                            SnapshotErrorModel::TokenQueryFailed(d.symbol, c@),
                        ) && final(self).failures_model() == old(self).failures_model())
                    },
                }
            }),
    {
        let i = match self.pending {
            Some(i) => i,
            None => {
                proof {
                    assert(false);
                }
                0
            },
        };
        self.pending = None;
        match result {
            Ok(p) => {
                let raw = p.0;
                let dec = p.1;
                if !raw.is_zero() {
                    let d = &self.registry[i];
                    let entry = TokenBalance {
                        symbol: d.symbol.clone(),
                        name: d.display_name.clone(),
                        balance: format_scaled(&raw, dec),
                        decimals: dec,
                        contract_address: d.contract_address.clone(),
                    };
                    self.token_balances.push(entry);
                    proof {
                        assert(self.balances_model() =~= old(self).balances_model().push(
                            token_balance_model(
                                old(self).registry_model()[i as int],
                                raw@,
                                dec as nat,
                            ),
                        ));
                    }
                }
            },
            Err(c) => {
                let d = &self.registry[i];
                let symbol = d.symbol.clone();
                match self.policy {
                    FailurePolicy::Partial => {
                        self.partial_failures.push(
                            PartialFailure { symbol, cause: c.clone() },
                        );
                        proof {
                            assert(self.failures_model() =~= old(self).failures_model().push(
                                PartialFailureModel {
                                    symbol: old(self).registry_model()[i as int].symbol,
                                    cause: c@,
                                },
                            ));
                        }
                    },
                    FailurePolicy::FailFast => {
                        self.error = Some(SnapshotError::TokenQueryFailed(symbol, c.clone()));
                    },
                }
            },
        }
    }

    /// Ends the request: the terminal error if one occurred, otherwise the
    /// assembled snapshot with the tolerated failures.
    pub fn finish(self) -> (r: Result<Snapshot, SnapshotError>)
        requires
            self.wf(),
            self.pending_spec() is None,
            self.error_model() is Some || (self.eth_model() is Some && self.next_index_spec()
                == self.registry_model().len()),
        ensures
            self.error_model() matches Some(e) ==> (r matches Err(re) && re@ == e),
            self.error_model() is None ==> (r matches Ok(snap) && snap@.wallet.address
                == self.address_model() && Some(snap@.wallet.eth_balance) == self.eth_model()
                && snap@.wallet.token_balances == self.balances_model() && snap@.partial_failures
                == self.failures_model()),
    {
        let Session { address, eth_balance, token_balances, partial_failures, error, .. } = self;
        match error {
            Some(e) => Err(e),
            None => {
                let eth = match eth_balance {
                    Some(s) => s,
                    None => {
                        proof {
                            assert(false);
                        }
                        String::new()
                    },
                };
                Ok(
                    Snapshot {
                        wallet: WalletData {
                            address: address.into_text(),
                            eth_balance: eth,
                            token_balances,
                        },
                        partial_failures,
                    },
                )
            },
        }
    }
}

} // verus!
