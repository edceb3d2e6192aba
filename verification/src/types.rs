//! Data model of the snapshot service: token descriptors, per-token
//! balances, the wallet snapshot, failure records and the error taxonomy.
//!
//! Each executable type has a ghost model over `Seq<char>` and `nat`, so
//! contracts compare mathematical values, never heap data.

use vstd::prelude::*;

use crate::format::format_spec;

verus! {

/// Decimals of the native asset: its smallest unit is `10^-18`.
pub const NATIVE_DECIMALS: u8 = 18;

/// One entry of the token registry: a contract to query.
pub struct TokenDescriptor {
    pub symbol: String,
    pub contract_address: String,
    pub display_name: String,
}

/// Ghost model of a token descriptor.
pub struct TokenDescriptorModel {
    pub symbol: Seq<char>,
    pub contract_address: Seq<char>,
    pub display_name: Seq<char>,
}

impl View for TokenDescriptor {
    type V = TokenDescriptorModel;

    open spec fn view(&self) -> TokenDescriptorModel {
        TokenDescriptorModel {
            symbol: self.symbol@,
            contract_address: self.contract_address@,
            display_name: self.display_name@,
        }
    }
}

impl TokenDescriptor {
    /// Builds a registry entry.
    pub fn new(symbol: String, contract_address: String, display_name: String) -> (r:
        TokenDescriptor)
        ensures
            r@.symbol == symbol@,
            r@.contract_address == contract_address@,
            r@.display_name == display_name@,
    {
        TokenDescriptor { symbol, contract_address, display_name }
    }
}

/// One nonzero token balance of the snapshot.
pub struct TokenBalance {
    pub symbol: String,
    pub name: String,
    pub balance: String,
    pub decimals: u8,
    pub contract_address: String,
}

/// Ghost model of a token balance.
pub struct TokenBalanceModel {
    pub symbol: Seq<char>,
    pub name: Seq<char>,
    pub balance: Seq<char>,
    pub decimals: nat,
    pub contract_address: Seq<char>,
}

impl View for TokenBalance {
    type V = TokenBalanceModel;

    open spec fn view(&self) -> TokenBalanceModel {
        TokenBalanceModel {
            symbol: self.symbol@,
            name: self.name@,
            balance: self.balance@,
            decimals: self.decimals as nat,
            contract_address: self.contract_address@,
        }
    }
}

/// The snapshot entry a descriptor with raw balance `raw` and `dec`
/// decimals produces.
pub open spec fn token_balance_model(d: TokenDescriptorModel, raw: nat, dec: nat)
    -> TokenBalanceModel {
    TokenBalanceModel {
        symbol: d.symbol,
        name: d.display_name,
        balance: format_spec(raw, dec),
        decimals: dec,
        contract_address: d.contract_address,
    }
}

/// The whole wallet snapshot: the address, its formatted native balance and
/// the nonzero token balances in registry order.
pub struct WalletData {
    pub address: String,
    pub eth_balance: String,
    pub token_balances: Vec<TokenBalance>,
}

/// Ghost model of a wallet snapshot.
pub struct WalletDataModel {
    pub address: Seq<char>,
    pub eth_balance: Seq<char>,
    pub token_balances: Seq<TokenBalanceModel>,
}

impl View for WalletData {
    type V = WalletDataModel;

    open spec fn view(&self) -> WalletDataModel {
        WalletDataModel {
            address: self.address@,
            eth_balance: self.eth_balance@,
            token_balances: self.token_balances@.map_values(|b: TokenBalance| b@),
        }
    }
}

/// A recorded per-token failure under the partial policy.
pub struct PartialFailure {
    pub symbol: String,
    pub cause: String,
}

/// Ghost model of a recorded failure.
pub struct PartialFailureModel {
    pub symbol: Seq<char>,
    pub cause: Seq<char>,
}

impl View for PartialFailure {
    type V = PartialFailureModel;

    open spec fn view(&self) -> PartialFailureModel {
        PartialFailureModel { symbol: self.symbol@, cause: self.cause@ }
    }
}

/// The outcome of a completed request: the snapshot, plus whatever
/// per-token failures were tolerated (always empty under the fail-fast
/// policy).
pub struct Snapshot {
    pub wallet: WalletData,
    pub partial_failures: Vec<PartialFailure>,
}

/// Ghost model of an outcome.
pub struct SnapshotModel {
    pub wallet: WalletDataModel,
    pub partial_failures: Seq<PartialFailureModel>,
}

impl View for Snapshot {
    type V = SnapshotModel;

    open spec fn view(&self) -> SnapshotModel {
        SnapshotModel {
            wallet: self.wallet@,
            partial_failures: self.partial_failures@.map_values(|f: PartialFailure| f@),
        }
    }
}

/// How a per-token failure is treated.
#[derive(Clone, Copy, Debug, PartialEq, Eq, Structural)]
pub enum FailurePolicy {
    /// The first per-token failure aborts the whole request.
    FailFast,
    /// A failing token is recorded and the rest are still queried.
    Partial,
}

/// Why no snapshot was produced.
#[derive(Debug)]
pub enum SnapshotError {
    /// The address is not syntactically valid; nothing was queried.
    InvalidAddress,
    /// The mandatory native balance query failed, with its cause.
    NativeQueryFailed(String),
    /// A token query failed under the fail-fast policy: symbol, then cause.
    TokenQueryFailed(String, String),
}

/// Ghost model of an error.
pub enum SnapshotErrorModel {
    InvalidAddress,
    NativeQueryFailed(Seq<char>),
    TokenQueryFailed(Seq<char>, Seq<char>),
}

impl View for SnapshotError {
    type V = SnapshotErrorModel;

    open spec fn view(&self) -> SnapshotErrorModel {
        match self {
            SnapshotError::InvalidAddress => SnapshotErrorModel::InvalidAddress,
            SnapshotError::NativeQueryFailed(c) => SnapshotErrorModel::NativeQueryFailed(c@),
            SnapshotError::TokenQueryFailed(s, c) => SnapshotErrorModel::TokenQueryFailed(s@, c@),
        }
    }
}

impl SnapshotError {
    /// The human-readable message of the error.
    pub fn message(&self) -> (m: String)
        ensures
            self@ is InvalidAddress ==> m@ == "Invalid Ethereum address"@,
            self@ matches SnapshotErrorModel::NativeQueryFailed(c) ==> m@ == c,
            self@ matches SnapshotErrorModel::TokenQueryFailed(_, c) ==> m@ == c,
    {
        match self {
            SnapshotError::InvalidAddress => String::from_str("Invalid Ethereum address"),
            SnapshotError::NativeQueryFailed(c) => c.clone(),
            SnapshotError::TokenQueryFailed(_, c) => c.clone(),
        }
    }
}

/// The failure text recorded for a descriptor whose contract address does
/// not parse.
pub open spec fn invalid_contract_cause(symbol: Seq<char>) -> Seq<char> {
    "Invalid contract address for "@ + symbol
}

/// Builds the failure text for an invalid contract address.
pub fn make_invalid_contract_cause(symbol: &String) -> (c: String)
    ensures
        c@ == invalid_contract_cause(symbol@),
{
    let head = String::from_str("Invalid contract address for ");
    head.concat(symbol.as_str())
}

} // verus!
