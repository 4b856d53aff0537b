//! A fungible-token ledger: named token registries, each tracking account
//! balances, spending allowances, and an append-only transaction log, with
//! verified operations to move, create, and destroy value and to delegate
//! spending rights.

pub mod account;
pub mod agents;
pub mod bignat;
pub mod crypto;
pub mod kv;
pub mod ledger;
pub mod registry;
pub mod tables;
pub mod tasks;

pub use account::Account;
pub use agents::{Agent, AgentConfig, AgentStore, Output, Outputs, Schedule};
pub use bignat::BigNat;
pub use ledger::{
    AccountBalance, AllowanceArgs, ApproveArgs, Metadata, TokenState, Transaction, TransferArgs,
    TransferError, TransferFromArgs, TransferResult,
};
pub use registry::{APIResponse, Registry};
pub use tasks::{Task, TaskAction};
