//! The token ledger state machine.
//!
//! A `TokenState` owns one ledger's metadata, balances, allowances, minting
//! account, and append-only transaction log. The five mutating operations
//! (init, transfer, mint, burn, approve, transfer-from) validate their
//! preconditions in order, mutate atomically, and append a transaction; the
//! read-only operations never mutate.
//!
//! After every completed operation the ledger is well formed: no balance is
//! negative (amounts are naturals by construction), transaction ids are
//! dense from zero, and the total supply equals the sum of all balances.
//! A transfer burns its fee — no collector account receives it — so the fee
//! leaves the payer's balance and the recorded supply alike.

use vstd::prelude::*;
use crate::account::{Account, clone_opt_bytes, opt_bytes_view};
use crate::bignat::BigNat;
use crate::tables::{
    AccountV, allow_keys_distinct, allow_of, bal_has_key, bal_keys_distinct, bal_of, get_allow,
    get_bal, lemma_bal_absent, lemma_bal_le_sum, set_allow, set_bal, sum_bal,
};

verus! {

/// One token's descriptive data and economics.
pub struct Metadata {
    pub name: String,
    pub symbol: String,
    pub decimals: u8,
    pub description: Option<String>,
    pub logo: Option<String>,
    pub total_supply: BigNat,
    pub owner: Vec<u8>,
    pub fee: BigNat,
}

impl Default for Metadata {
    /// An unnamed token with eight decimals, no supply, no fee, owned by
    /// the anonymous principal.
    fn default() -> (r: Self)
        ensures
            r.name@ == Seq::<char>::empty(),
            r.symbol@ == Seq::<char>::empty(),
            r.decimals == 8,
            r.description is None,
            r.logo is None,
            r.total_supply@ == 0,
            r.owner@ == seq![crate::account::ANONYMOUS_PRINCIPAL_BYTE],
            r.fee@ == 0,
    {
        let mut owner: Vec<u8> = Vec::new();
        owner.push(crate::account::ANONYMOUS_PRINCIPAL_BYTE);
        proof {
            assert(owner@ =~= seq![crate::account::ANONYMOUS_PRINCIPAL_BYTE]);
        }
        Metadata {
            name: String::new(),
            symbol: String::new(),
            decimals: 8,
            description: None,
            logo: None,
            total_supply: BigNat::zero(),
            owner,
            fee: BigNat::zero(),
        }
    }
}

/// One completed movement of value, as recorded in the log.
pub struct Transaction {
    pub id: u64,
    pub from: Account,
    pub to: Account,
    pub amount: BigNat,
    pub timestamp: u64,
    pub memo: Option<Vec<u8>>,
}

/// The mathematical content of a transaction.
pub struct TransactionV {
    pub id: u64,
    pub from: AccountV,
    pub to: AccountV,
    pub amount: nat,
    pub timestamp: u64,
    pub memo: Option<Seq<u8>>,
}

impl View for Transaction {
    type V = TransactionV;

    open spec fn view(&self) -> TransactionV {
        TransactionV {
            id: self.id,
            from: self.from@,
            to: self.to@,
            amount: self.amount@,
            timestamp: self.timestamp,
            memo: opt_bytes_view(self.memo),
        }
    }
}

impl Clone for Transaction {
    fn clone(&self) -> (r: Self)
        ensures
            r@ == self@,
    {
        Transaction {
            id: self.id,
            from: self.from.clone(),
            to: self.to.clone(),
            amount: self.amount.clone(),
            timestamp: self.timestamp,
            memo: clone_opt_bytes(&self.memo),
        }
    }
}

/// Why a mutating operation was refused.
#[derive(Debug)]
pub enum TransferError {
    BadFee { expected_fee: BigNat },
    BadBurn { min_burn_amount: BigNat },
    InsufficientFunds { balance: BigNat },
    TooOld,
    CreatedInFuture { ledger_time: u64 },
    Duplicate { duplicate_of: BigNat },
    TemporarilyUnavailable,
    GenericError { error_code: BigNat, message: String },
    InsufficientAllowance { allowance: BigNat },
}

/// The outcome of a mutating operation: the new transaction's id, or a
/// typed error.
pub type TransferResult = Result<BigNat, TransferError>;

/// A transfer request: move `amount` from the caller's account to `to`.
pub struct TransferArgs {
    pub from_subaccount: Option<Vec<u8>>,
    pub to: Account,
    pub amount: BigNat,
    pub fee: Option<BigNat>,
    pub memo: Option<Vec<u8>>,
    pub created_at_time: Option<u64>,
}

/// An approval request: let `spender` move up to `amount` out of the
/// caller's account.
pub struct ApproveArgs {
    pub from_subaccount: Option<Vec<u8>>,
    pub spender: Account,
    pub amount: BigNat,
    pub expected_allowance: Option<BigNat>,
    pub expires_at: Option<u64>,
    pub fee: Option<BigNat>,
    pub memo: Option<Vec<u8>>,
    pub created_at_time: Option<u64>,
}

/// An allowance query: how much may `spender` move out of `account`.
pub struct AllowanceArgs {
    pub account: Account,
    pub spender: Account,
}

/// A transfer-on-behalf request: the caller spends its allowance to move
/// `amount` from `from` to `to`.
pub struct TransferFromArgs {
    pub spender_subaccount: Option<Vec<u8>>,
    pub from: Account,
    pub to: Account,
    pub amount: BigNat,
    pub fee: Option<BigNat>,
    pub memo: Option<Vec<u8>>,
    pub created_at_time: Option<u64>,
}

/// One account together with its balance, for enumeration.
pub struct AccountBalance {
    pub account: Account,
    pub balance: BigNat,
}

/// The complete state of one token ledger.
pub struct TokenState {
    pub metadata: Metadata,
    pub balances: Vec<(Account, BigNat)>,
    pub allowances: Vec<(Account, Account, BigNat)>,
    pub transactions: Vec<Transaction>,
    pub transaction_counter: u64,
    pub minting_account: Account,
}

/// Seconds a supplied creation time may lie ahead of the ledger's clock.
pub const CREATED_AT_DRIFT_SECS: u64 = 120;

/// Seconds after which a supplied creation time is too old.
pub const CREATED_AT_MAX_AGE_SECS: u64 = 86400;

impl TokenState {
    /// Well-formedness, preserved by every operation: distinct table keys,
    /// supply accounting, and a dense zero-based transaction log.
    pub open spec fn wf(self) -> bool {
        &&& bal_keys_distinct(self.balances@)
        &&& allow_keys_distinct(self.allowances@)
        &&& self.metadata.total_supply@ == sum_bal(self.balances@)
        &&& self.transaction_counter == self.transactions@.len()
        &&& forall|i: int|
            0 <= i < self.transactions@.len() ==> (#[trigger] self.transactions@[i]).id == i
        &&& self.metadata.owner@.len() <= 29
    }

    /// The balance held by `x`: zero when never credited.
    pub open spec fn balance(self, x: AccountV) -> nat {
        bal_of(self.balances@, x)
    }

    /// The allowance of spender `sp` on owner `o`: zero for any unseen pair.
    pub open spec fn allowance_for(self, o: AccountV, sp: AccountV) -> nat {
        allow_of(self.allowances@, o, sp)
    }
}

/// What `TokenState::init` builds: the administrator's default account is
/// the minting account and holds the whole initial supply, the log is
/// empty, and no allowance is set.
pub open spec fn init_spec(
    post: TokenState,
    name: Seq<char>,
    symbol: Seq<char>,
    decimals: u8,
    initial_supply: nat,
    owner: Seq<u8>,
    fee: nat,
) -> bool {
    let admin = (owner, None::<Seq<u8>>);
    &&& post.metadata.name@ == name
    &&& post.metadata.symbol@ == symbol
    &&& post.metadata.decimals == decimals
    &&& post.metadata.total_supply@ == initial_supply
    &&& post.metadata.owner@ == owner
    &&& post.metadata.fee@ == fee
    &&& post.minting_account@ == admin
    &&& post.balance(admin) == initial_supply
    &&& forall|x: AccountV| x != admin ==> #[trigger] post.balance(x) == 0
    &&& forall|o: AccountV, sp: AccountV| #[trigger] post.allowance_for(o, sp) == 0
    &&& post.transactions@.len() == 0
    &&& post.transaction_counter == 0
}

impl TokenState {
    /// Creates a ledger: the only operation permitted to set an
    /// out-of-thin-air balance.
    pub fn init(
        name: String,
        symbol: String,
        decimals: u8,
        description: Option<String>,
        logo: Option<String>,
        initial_supply: BigNat,
        owner: Vec<u8>,
        fee: BigNat,
    ) -> (r: TokenState)
        requires
            owner@.len() <= 29,
        ensures
            r.wf(),
            init_spec(r, name@, symbol@, decimals, initial_supply@, owner@, fee@),
            r.metadata.description == description,
            r.metadata.logo == logo,
    {
        let admin = Account { owner: owner.clone(), subaccount: None };
        let supply_copy = initial_supply.clone();
        let mut balances: Vec<(Account, BigNat)> = Vec::new();
        set_bal(&mut balances, &admin, initial_supply);
        let metadata = Metadata {
            name,
            symbol,
            decimals,
            description,
            logo,
            total_supply: supply_copy,
            owner,
            fee,
        };
        let r = TokenState {
            metadata,
            balances,
            allowances: Vec::new(),
            transactions: Vec::new(),
            transaction_counter: 0,
            minting_account: admin,
        };
        proof {
            assert(bal_of(Seq::<(Account, BigNat)>::empty(), r.minting_account@) == 0);
            assert forall|x: AccountV| x != r.minting_account@ implies #[trigger] r.balance(x)
                == 0 by {
                assert(bal_of(Seq::<(Account, BigNat)>::empty(), x) == 0);
            }
            assert forall|o: AccountV, sp: AccountV| #[trigger] r.allowance_for(o, sp) == 0 by {
                assert(allow_of(Seq::<(Account, Account, BigNat)>::empty(), o, sp) == 0);
            }
        }
        r
    }

    /// Everything a transfer must leave alone: every metadata field but
    /// the total supply, the minting account, and every allowance.
    pub open spec fn frame_for_transfer(self, post: TokenState) -> bool {
        &&& post.metadata.name == self.metadata.name
        &&& post.metadata.symbol == self.metadata.symbol
        &&& post.metadata.decimals == self.metadata.decimals
        &&& post.metadata.description == self.metadata.description
        &&& post.metadata.logo == self.metadata.logo
        &&& post.metadata.owner == self.metadata.owner
        &&& post.metadata.fee == self.metadata.fee
        &&& post.minting_account == self.minting_account
        &&& post.allowances == self.allowances
    }

    /// The transaction log after appending one record.
    pub open spec fn log_appended(self, post: TokenState, t: TransactionV) -> bool {
        &&& post.transactions@.len() == self.transactions@.len() + 1
        &&& post.transactions@.subrange(0, self.transactions@.len() as int)
            == self.transactions@
        &&& post.transactions@.last()@ == t
        &&& post.transaction_counter == self.transaction_counter + 1
    }
}

/// What `TokenState::transfer` does, for every allowed input.
///
/// Checked in order, first failure wins: a supplied fee must equal the
/// ledger fee (BadFee), the caller must hold amount plus fee
/// (InsufficientFunds), and a supplied creation time must lie within the
/// clock-skew window (CreatedInFuture / TooOld). On success the caller is
/// debited amount plus fee, the recipient is credited the amount, the fee
/// is burned — it leaves the balances and the total supply alike — and the
/// new transaction's id is returned.
pub open spec fn transfer_spec(
    pre: TokenState,
    post: TokenState,
    r: TransferResult,
    caller: Seq<u8>,
    args: TransferArgs,
    now: u64,
) -> bool {
    let from = (caller, opt_bytes_view(args.from_subaccount));
    let to = args.to@;
    let lfee = pre.metadata.fee@;
    let amt = args.amount@;
    let bal = pre.balance(from);
    let bad_fee = match args.fee {
        Some(f) => f@ != lfee,
        None => false,
    };
    let insufficient = bal < amt + lfee;
    let in_future = match args.created_at_time {
        Some(t) => t > now + CREATED_AT_DRIFT_SECS,
        None => false,
    };
    let too_old = match args.created_at_time {
        Some(t) => now > t + CREATED_AT_MAX_AGE_SECS,
        None => false,
    };
    if bad_fee {
        &&& post == pre
        &&& r matches Err(TransferError::BadFee { expected_fee }) && expected_fee@ == lfee
    } else if insufficient {
        &&& post == pre
        &&& r matches Err(TransferError::InsufficientFunds { balance }) && balance@ == bal
    } else if in_future {
        &&& post == pre
        &&& r matches Err(TransferError::CreatedInFuture { ledger_time }) && ledger_time == now
    } else if too_old {
        &&& post == pre
        &&& r matches Err(TransferError::TooOld)
    } else {
        &&& r matches Ok(id) && id@ == pre.transaction_counter as nat
        &&& if from == to {
            post.balance(from) == bal - lfee
        } else {
            post.balance(from) == bal - (amt + lfee) && post.balance(to) == pre.balance(to) + amt
        }
        &&& forall|x: AccountV| x != from && x != to ==> #[trigger] post.balance(x) == pre.balance(
            x,
        )
        &&& sum_bal(post.balances@) == sum_bal(pre.balances@) - lfee
        &&& post.metadata.total_supply@ == pre.metadata.total_supply@ - lfee
        &&& pre.frame_for_transfer(post)
        &&& pre.log_appended(
            post,
            TransactionV {
                id: pre.transaction_counter,
                from,
                to,
                amount: amt,
                timestamp: now,
                memo: opt_bytes_view(args.memo),
            },
        )
    }
}

impl TokenState {
    /// Moves `amount` from the caller's account to `args.to`, burning the
    /// ledger fee; all mutations happen atomically after every check.
    pub fn transfer(&mut self, caller: &Vec<u8>, args: &TransferArgs, now: u64) -> (r:
        TransferResult)
        requires
            old(self).wf(),
            old(self).transaction_counter < u64::MAX,
        ensures
            final(self).wf(),
            transfer_spec(*old(self), *final(self), r, caller@, *args, now),
    {
        let from = Account {
            owner: caller.clone(),
            subaccount: clone_opt_bytes(&args.from_subaccount),
        };
        proof {
            assert(from.owner@ =~= caller@);
        }
        if let Some(f) = &args.fee {
            if !f.eq_value(&self.metadata.fee) {
                return Err(TransferError::BadFee { expected_fee: self.metadata.fee.clone() });
            }
        }
        let bal = get_bal(&self.balances, &from);
        let total = args.amount.plus(&self.metadata.fee);
        if bal.lt(&total) {
            return Err(TransferError::InsufficientFunds { balance: bal });
        }
        if let Some(t) = args.created_at_time {
            if t > CREATED_AT_DRIFT_SECS && t - CREATED_AT_DRIFT_SECS > now {
                return Err(TransferError::CreatedInFuture { ledger_time: now });
            }
            if now > CREATED_AT_MAX_AGE_SECS && now - CREATED_AT_MAX_AGE_SECS > t {
                return Err(TransferError::TooOld);
            }
        }
        proof {
            lemma_bal_le_sum(self.balances@, from@);
        }
        let new_supply = self.metadata.total_supply.minus(&self.metadata.fee);
        self.metadata.total_supply = new_supply;
        let new_from = bal.minus(&total);
        set_bal(&mut self.balances, &from, new_from);
        let to_bal = get_bal(&self.balances, &args.to);
        let new_to = to_bal.plus(&args.amount);
        set_bal(&mut self.balances, &args.to, new_to);
        let tx_id = self.transaction_counter;
        self.transaction_counter = tx_id + 1;
        let tx = Transaction {
            id: tx_id,
            from,
            to: args.to.clone(),
            amount: args.amount.clone(),
            timestamp: now,
            memo: clone_opt_bytes(&args.memo),
        };
        self.transactions.push(tx);
        proof {
            assert(self.transactions@.subrange(0, old(self).transactions@.len() as int)
                =~= old(self).transactions@);
        }
        Ok(BigNat::from_u64(tx_id))
    }

    /// Everything mint and burn must leave alone besides the supply.
    pub open spec fn frame_for_supply_change(self, post: TokenState) -> bool {
        &&& post.metadata.name@ == self.metadata.name@
        &&& post.metadata.symbol@ == self.metadata.symbol@
        &&& post.metadata.decimals == self.metadata.decimals
        &&& post.metadata.description == self.metadata.description
        &&& post.metadata.logo == self.metadata.logo
        &&& post.metadata.owner@ == self.metadata.owner@
        &&& post.metadata.fee@ == self.metadata.fee@
        &&& post.minting_account == self.minting_account
        &&& post.allowances == self.allowances
    }
}

/// A completed mint: `to` is credited, the supply grows by the amount, and
/// the transaction is recorded from the minting account.
pub open spec fn mint_applied(
    pre: TokenState,
    post: TokenState,
    to: AccountV,
    amount: nat,
    now: u64,
) -> bool {
    &&& post.balance(to) == pre.balance(to) + amount
    &&& forall|x: AccountV| x != to ==> #[trigger] post.balance(x) == pre.balance(x)
    &&& sum_bal(post.balances@) == sum_bal(pre.balances@) + amount
    &&& post.metadata.total_supply@ == pre.metadata.total_supply@ + amount
    &&& pre.frame_for_supply_change(post)
    &&& pre.log_appended(
        post,
        TransactionV {
            id: pre.transaction_counter,
            from: pre.minting_account@,
            to: to,
            amount,
            timestamp: now,
            memo: None,
        },
    )
}

/// What `TokenState::mint` does: only the minting account's owner may
/// mint; on success `to` is credited, the supply grows by the amount, and
/// the transaction is recorded from the minting account.
pub open spec fn mint_spec(
    pre: TokenState,
    post: TokenState,
    r: TransferResult,
    caller: Seq<u8>,
    to: Account,
    amount: nat,
    now: u64,
) -> bool {
    let authorized = caller == pre.minting_account@.0;
    if !authorized {
        &&& post == pre
        &&& r matches Err(TransferError::GenericError { error_code, message }) && error_code@ == 1
            && message@ == "Only minting account can mint tokens"@
    } else {
        &&& r matches Ok(id) && id@ == pre.transaction_counter as nat
        &&& mint_applied(pre, post, to@, amount, now)
    }
}

/// What `TokenState::burn` does: only the account's owner or the minting
/// account's owner may burn, the account must hold the amount; on success
/// the account is debited, the supply shrinks by the amount, and the
/// transaction is recorded to the minting account.
pub open spec fn burn_spec(
    pre: TokenState,
    post: TokenState,
    r: TransferResult,
    caller: Seq<u8>,
    from: Account,
    amount: nat,
    now: u64,
) -> bool {
    let authorized = caller == from@.0 || caller == pre.minting_account@.0;
    let bal = pre.balance(from@);
    if !authorized {
        &&& post == pre
        &&& r matches Err(TransferError::GenericError { error_code, message }) && error_code@ == 1
            && message@ == "Not authorized to burn tokens"@
    } else if bal < amount {
        &&& post == pre
        &&& r matches Err(TransferError::InsufficientFunds { balance }) && balance@ == bal
    } else {
        &&& r matches Ok(id) && id@ == pre.transaction_counter as nat
        &&& post.balance(from@) == bal - amount
        &&& forall|x: AccountV| x != from@ ==> #[trigger] post.balance(x) == pre.balance(x)
        &&& sum_bal(post.balances@) == sum_bal(pre.balances@) - amount
        &&& post.metadata.total_supply@ == pre.metadata.total_supply@ - amount
        &&& pre.frame_for_supply_change(post)
        &&& pre.log_appended(
            post,
            TransactionV {
                id: pre.transaction_counter,
                from: from@,
                to: pre.minting_account@,
                amount,
                timestamp: now,
                memo: None,
            },
        )
    }
}

/// What `TokenState::approve` does: if an expected allowance is supplied it
/// must match the stored one; on success the allowance is overwritten (not
/// added) with the requested amount. Nothing else changes and no
/// transaction is recorded.
pub open spec fn approve_spec(
    pre: TokenState,
    post: TokenState,
    r: TransferResult,
    caller: Seq<u8>,
    args: ApproveArgs,
) -> bool {
    let owner = (caller, opt_bytes_view(args.from_subaccount));
    let spender = args.spender@;
    let current = pre.allowance_for(owner, spender);
    let mismatch = match args.expected_allowance {
        Some(e) => e@ != current,
        None => false,
    };
    if mismatch {
        &&& post == pre
        &&& r matches Err(TransferError::GenericError { error_code, message }) && error_code@ == 2
            && message@ == "Allowance mismatch"@
    } else {
        &&& r matches Ok(id) && id@ == 0
        &&& post.allowance_for(owner, spender) == args.amount@
        &&& forall|o: AccountV, sp: AccountV|
            !(o == owner && sp == spender) ==> #[trigger] post.allowance_for(o, sp)
                == pre.allowance_for(o, sp)
        &&& post.balances == pre.balances
        &&& post.metadata == pre.metadata
        &&& post.minting_account == pre.minting_account
        &&& post.transactions == pre.transactions
        &&& post.transaction_counter == pre.transaction_counter
    }
}

/// What `TokenState::transfer_from` does: the caller's allowance on `from`
/// must cover the amount (the fee is not drawn from the allowance), and
/// `from` must hold amount plus fee. On success the allowance shrinks by
/// exactly the amount, `from` is debited amount plus fee, `to` is credited
/// the amount, and the fee is burned out of the balances and the supply
/// alike.
pub open spec fn transfer_from_spec(
    pre: TokenState,
    post: TokenState,
    r: TransferResult,
    caller: Seq<u8>,
    args: TransferFromArgs,
    now: u64,
) -> bool {
    let spender = (caller, opt_bytes_view(args.spender_subaccount));
    let from = args.from@;
    let to = args.to@;
    let amt = args.amount@;
    let fee = match args.fee {
        Some(f) => f@,
        None => pre.metadata.fee@,
    };
    let alw = pre.allowance_for(from, spender);
    let bal = pre.balance(from);
    if alw < amt {
        &&& post == pre
        &&& r matches Err(TransferError::InsufficientAllowance { allowance }) && allowance@ == alw
    } else if bal < amt + fee {
        &&& post == pre
        &&& r matches Err(TransferError::InsufficientFunds { balance }) && balance@ == bal
    } else {
        &&& r matches Ok(id) && id@ == pre.transaction_counter as nat
        &&& post.allowance_for(from, spender) == alw - amt
        &&& forall|o: AccountV, sp: AccountV|
            !(o == from && sp == spender) ==> #[trigger] post.allowance_for(o, sp)
                == pre.allowance_for(o, sp)
        &&& if from == to {
            post.balance(from) == bal - fee
        } else {
            post.balance(from) == bal - (amt + fee) && post.balance(to) == pre.balance(to) + amt
        }
        &&& forall|x: AccountV| x != from && x != to ==> #[trigger] post.balance(x) == pre.balance(
            x,
        )
        &&& sum_bal(post.balances@) == sum_bal(pre.balances@) - fee
        &&& post.metadata.total_supply@ == pre.metadata.total_supply@ - fee
        &&& post.metadata.name == pre.metadata.name
        &&& post.metadata.symbol == pre.metadata.symbol
        &&& post.metadata.decimals == pre.metadata.decimals
        &&& post.metadata.description == pre.metadata.description
        &&& post.metadata.logo == pre.metadata.logo
        &&& post.metadata.owner == pre.metadata.owner
        &&& post.metadata.fee == pre.metadata.fee
        &&& post.minting_account == pre.minting_account
        &&& pre.log_appended(
            post,
            TransactionV {
                id: pre.transaction_counter,
                from,
                to,
                amount: amt,
                timestamp: now,
                memo: opt_bytes_view(args.memo),
            },
        )
    }
}

impl TokenState {
    /// Creates `amount` new tokens in `to`; the caller must own the minting
    /// account.
    pub fn mint(&mut self, caller: &Vec<u8>, to: &Account, amount: &BigNat, now: u64) -> (r:
        TransferResult)
        requires
            old(self).wf(),
            old(self).transaction_counter < u64::MAX,
        ensures
            final(self).wf(),
            mint_spec(*old(self), *final(self), r, caller@, *to, amount@, now),
    {
        if !crate::account::bytes_eq(&self.minting_account.owner, caller) {
            return Err(
                TransferError::GenericError {
                    error_code: BigNat::from_u64(1),
                    message: "Only minting account can mint tokens".to_owned(),
                },
            );
        }
        let bal = get_bal(&self.balances, to);
        let new_bal = bal.plus(amount);
        set_bal(&mut self.balances, to, new_bal);
        let new_supply = self.metadata.total_supply.plus(amount);
        self.metadata.total_supply = new_supply;
        let tx_id = self.transaction_counter;
        self.transaction_counter = tx_id + 1;
        let tx = Transaction {
            id: tx_id,
            from: self.minting_account.clone(),
            to: to.clone(),
            amount: amount.clone(),
            timestamp: now,
            memo: None,
        };
        self.transactions.push(tx);
        proof {
            assert(self.transactions@.subrange(0, old(self).transactions@.len() as int)
                =~= old(self).transactions@);
        }
        Ok(BigNat::from_u64(tx_id))
    }

    /// Destroys `amount` tokens held by `from`; the caller must own `from`
    /// or the minting account, and `from` must hold the amount.
    pub fn burn(&mut self, caller: &Vec<u8>, from: &Account, amount: &BigNat, now: u64) -> (r:
        TransferResult)
        requires
            old(self).wf(),
            old(self).transaction_counter < u64::MAX,
        ensures
            final(self).wf(),
            burn_spec(*old(self), *final(self), r, caller@, *from, amount@, now),
    {
        if !crate::account::bytes_eq(&from.owner, caller) && !crate::account::bytes_eq(
            &self.minting_account.owner,
            caller,
        ) {
            return Err(
                TransferError::GenericError {
                    error_code: BigNat::from_u64(1),
                    message: "Not authorized to burn tokens".to_owned(),
                },
            );
        }
        let bal = get_bal(&self.balances, from);
        if bal.lt(amount) {
            return Err(TransferError::InsufficientFunds { balance: bal });
        }
        proof {
            lemma_bal_le_sum(self.balances@, from@);
        }
        let new_bal = bal.minus(amount);
        set_bal(&mut self.balances, from, new_bal);
        let new_supply = self.metadata.total_supply.minus(amount);
        self.metadata.total_supply = new_supply;
        let tx_id = self.transaction_counter;
        self.transaction_counter = tx_id + 1;
        let tx = Transaction {
            id: tx_id,
            from: from.clone(),
            to: self.minting_account.clone(),
            amount: amount.clone(),
            timestamp: now,
            memo: None,
        };
        self.transactions.push(tx);
        proof {
            assert(self.transactions@.subrange(0, old(self).transactions@.len() as int)
                =~= old(self).transactions@);
        }
        Ok(BigNat::from_u64(tx_id))
    }

    /// Overwrites the allowance of `(caller's account, spender)` with the
    /// requested amount, after an optional optimistic-concurrency check
    /// against the currently stored allowance.
    pub fn approve(&mut self, caller: &Vec<u8>, args: &ApproveArgs) -> (r: TransferResult)
        requires
            old(self).wf(),
        ensures
            final(self).wf(),
            approve_spec(*old(self), *final(self), r, caller@, *args),
    {
        let owner = Account {
            owner: caller.clone(),
            subaccount: clone_opt_bytes(&args.from_subaccount),
        };
        proof {
            assert(owner.owner@ =~= caller@);
        }
        let current = get_allow(&self.allowances, &owner, &args.spender);
        if let Some(expected) = &args.expected_allowance {
            if !expected.eq_value(&current) {
                return Err(
                    TransferError::GenericError {
                        error_code: BigNat::from_u64(2),
                        message: "Allowance mismatch".to_owned(),
                    },
                );
            }
        }
        set_allow(&mut self.allowances, &owner, &args.spender, args.amount.clone());
        Ok(BigNat::zero())
    }

    /// Spends the caller's allowance on `from` to move `amount` to `to`;
    /// the fee comes out of `from`'s balance, not out of the allowance.
    pub fn transfer_from(
        &mut self,
        caller: &Vec<u8>,
        args: &TransferFromArgs,
        now: u64,
    ) -> (r: TransferResult)
        requires
            old(self).wf(),
            old(self).transaction_counter < u64::MAX,
        ensures
            final(self).wf(),
            transfer_from_spec(*old(self), *final(self), r, caller@, *args, now),
    {
        let spender = Account {
            owner: caller.clone(),
            subaccount: clone_opt_bytes(&args.spender_subaccount),
        };
        proof {
            assert(spender.owner@ =~= caller@);
        }
        let alw = get_allow(&self.allowances, &args.from, &spender);
        if alw.lt(&args.amount) {
            return Err(TransferError::InsufficientAllowance { allowance: alw });
        }
        let fee = match &args.fee {
            Some(f) => f.clone(),
            None => self.metadata.fee.clone(),
        };
        let bal = get_bal(&self.balances, &args.from);
        let total = args.amount.plus(&fee);
        if bal.lt(&total) {
            return Err(TransferError::InsufficientFunds { balance: bal });
        }
        proof {
            lemma_bal_le_sum(self.balances@, args.from@);
        }
        let new_supply = self.metadata.total_supply.minus(&fee);
        self.metadata.total_supply = new_supply;
        let new_alw = alw.minus(&args.amount);
        set_allow(&mut self.allowances, &args.from, &spender, new_alw);
        let new_from = bal.minus(&total);
        set_bal(&mut self.balances, &args.from, new_from);
        let to_bal = get_bal(&self.balances, &args.to);
        let new_to = to_bal.plus(&args.amount);
        set_bal(&mut self.balances, &args.to, new_to);
        let tx_id = self.transaction_counter;
        self.transaction_counter = tx_id + 1;
        let tx = Transaction {
            id: tx_id,
            from: args.from.clone(),
            to: args.to.clone(),
            amount: args.amount.clone(),
            timestamp: now,
            memo: clone_opt_bytes(&args.memo),
        };
        self.transactions.push(tx);
        proof {
            assert(self.transactions@.subrange(0, old(self).transactions@.len() as int)
                =~= old(self).transactions@);
        }
        Ok(BigNat::from_u64(tx_id))
    }

    /// The balance of `account`; an account never credited holds zero.
    pub fn balance_of(&self, account: &Account) -> (r: BigNat)
        ensures
            r@ == self.balance(account@),
    {
        get_bal(&self.balances, account)
    }

    /// The allowance of `(owner, spender)`; an unseen pair has zero.
    pub fn allowance(&self, args: &AllowanceArgs) -> (r: BigNat)
        ensures
            r@ == self.allowance_for(args.account@, args.spender@),
    {
        get_allow(&self.allowances, &args.account, &args.spender)
    }

    /// The token's name.
    pub fn name(&self) -> (r: String)
        ensures
            r@ == self.metadata.name@,
    {
        self.metadata.name.clone()
    }

    /// The token's symbol.
    pub fn symbol(&self) -> (r: String)
        ensures
            r@ == self.metadata.symbol@,
    {
        self.metadata.symbol.clone()
    }

    /// The number of decimal places.
    pub fn decimals(&self) -> (r: u8)
        ensures
            r == self.metadata.decimals,
    {
        self.metadata.decimals
    }

    /// The configured per-transfer fee.
    pub fn fee(&self) -> (r: BigNat)
        ensures
            r@ == self.metadata.fee@,
    {
        self.metadata.fee.clone()
    }

    /// The recorded total supply.
    pub fn total_supply(&self) -> (r: BigNat)
        ensures
            r@ == self.metadata.total_supply@,
    {
        self.metadata.total_supply.clone()
    }

    /// The account authorized to create and destroy supply.
    pub fn minting_account(&self) -> (r: Account)
        ensures
            r@ == self.minting_account@,
    {
        self.minting_account.clone()
    }

    /// The most recent `limit` transactions, newest first; the whole log in
    /// original order when `limit` is zero or exceeds the log's length.
    pub fn get_transactions(&self, limit: u64) -> (r: Vec<Transaction>)
        ensures
            transactions_query_spec(*self, limit, r@),
    {
        let n = self.transactions.len();
        let mut r: Vec<Transaction> = Vec::new();
        if limit == 0 || limit > n as u64 {
            let mut i: usize = 0;
            while i < n
                invariant
                    i <= n,
                    n == self.transactions@.len(),
                    r@.len() == i,
                    forall|j: int| 0 <= j < i ==> r@[j]@ == self.transactions@[j]@,
                decreases n - i,
            {
                let t = self.transactions[i].clone();
                r.push(t);
                i = i + 1;
            }
            return r;
        }
        let k = limit as usize;
        let mut i: usize = 0;
        while i < k
            invariant
                i <= k,
                k <= n,
                n == self.transactions@.len(),
                r@.len() == i,
                forall|j: int| 0 <= j < i ==> r@[j]@ == self.transactions@[n - 1 - j]@,
            decreases k - i,
        {
            let t = self.transactions[n - 1 - i].clone();
            r.push(t);
            i = i + 1;
        }
        r
    }

    /// Every account together with its stored balance, for diagnostics.
    pub fn get_all_accounts(&self) -> (r: Vec<AccountBalance>)
        ensures
            accounts_listing_spec(*self, r@),
    {
        let n = self.balances.len();
        let mut r: Vec<AccountBalance> = Vec::new();
        let mut i: usize = 0;
        while i < n
            invariant
                i <= n,
                n == self.balances@.len(),
                r@.len() == i,
                forall|j: int|
                    0 <= j < i ==> (#[trigger] r@[j]).account@ == self.balances@[j].0@
                        && r@[j].balance@ == self.balances@[j].1@,
            decreases n - i,
        {
            let entry = AccountBalance {
                account: self.balances[i].0.clone(),
                balance: self.balances[i].1.clone(),
            };
            r.push(entry);
            i = i + 1;
        }
        r
    }

    /// The standard metadata entries, sorted by key: decimals, then the
    /// optional description and logo, then name and symbol.
    pub fn icrc1_metadata(&self) -> (r: Vec<(String, String)>)
        ensures
            pairs_view(r@) =~= icrc1_metadata_spec(self.metadata),
    {
        let mut r: Vec<(String, String)> = Vec::new();
        let dec = BigNat::from_u64(self.metadata.decimals as u64).to_dec_string();
        r.push(("icrc1:decimals".to_owned(), dec));
        if let Some(d) = &self.metadata.description {
            r.push(("icrc1:description".to_owned(), d.clone()));
        }
        if let Some(l) = &self.metadata.logo {
            r.push(("icrc1:logo".to_owned(), l.clone()));
        }
        r.push(("icrc1:name".to_owned(), self.metadata.name.clone()));
        r.push(("icrc1:symbol".to_owned(), self.metadata.symbol.clone()));
        r
    }
}

/// What `TokenState::get_all_accounts` returns: every stored entry, in
/// table order.
pub open spec fn accounts_listing_spec(st: TokenState, r: Seq<AccountBalance>) -> bool {
    &&& r.len() == st.balances@.len()
    &&& forall|i: int|
        0 <= i < r.len() ==> (#[trigger] r[i]).account@ == st.balances@[i].0@ && r[i].balance@
            == st.balances@[i].1@
}

/// The views of a list of key/value string pairs.
pub open spec fn pairs_view(s: Seq<(String, String)>) -> Seq<(Seq<char>, Seq<char>)> {
    s.map(|i: int, p: (String, String)| (p.0@, p.1@))
}

/// What `TokenState::get_transactions` returns: the whole log in original
/// order when `limit` is zero or exceeds the log's length, else the
/// `limit` most recent transactions, newest first.
pub open spec fn transactions_query_spec(pre: TokenState, limit: u64, r: Seq<Transaction>) -> bool {
    if limit == 0 || limit > pre.transactions@.len() {
        &&& r.len() == pre.transactions@.len()
        &&& forall|i: int| 0 <= i < r.len() ==> (#[trigger] r[i])@ == pre.transactions@[i]@
    } else {
        &&& r.len() == limit
        &&& forall|i: int|
            0 <= i < r.len() ==> (#[trigger] r[i])@ == pre.transactions@[pre.transactions@.len()
                - 1 - i]@
    }
}

/// Conservation of supply: in a well-formed ledger the recorded total
/// supply equals the sum of all balances. Every operation preserves
/// well-formedness — a transfer burns its fee out of the balances and the
/// supply alike — so this holds after each of them.
pub proof fn lemma_conservation(st: TokenState)
    requires
        st.wf(),
    ensures
        st.metadata.total_supply@ == sum_bal(st.balances@),
{
}

/// No balance exceeds the total supply; balances are naturals by
/// construction, so none is ever negative.
pub proof fn lemma_balance_bounded(st: TokenState, x: AccountV)
    requires
        st.wf(),
    ensures
        st.balance(x) <= st.metadata.total_supply@,
{
    lemma_bal_le_sum(st.balances@, x);
}

/// An account never credited holds zero.
pub proof fn lemma_balance_default(st: TokenState, x: AccountV)
    requires
        !bal_has_key(st.balances@, x),
    ensures
        st.balance(x) == 0,
{
    lemma_bal_absent(st.balances@, x);
}

/// The transaction log is dense: ids run from zero in order and the
/// counter equals the log's length.
pub proof fn lemma_log_density(st: TokenState)
    requires
        st.wf(),
    ensures
        st.transaction_counter == st.transactions@.len(),
        forall|i: int|
            0 <= i < st.transactions@.len() ==> (#[trigger] st.transactions@[i]).id == i,
{
}

/// Under transfer-from no allowance ever increases: the spent pair drops
/// by exactly the amount on success, and a refused call changes nothing.
pub proof fn lemma_allowance_never_increases(
    pre: TokenState,
    post: TokenState,
    r: TransferResult,
    caller: Seq<u8>,
    args: TransferFromArgs,
    now: u64,
)
    requires
        transfer_from_spec(pre, post, r, caller, args, now),
    ensures
        forall|o: AccountV, sp: AccountV| #[trigger]
            post.allowance_for(o, sp) <= pre.allowance_for(o, sp),
{
    let spender = (caller, opt_bytes_view(args.spender_subaccount));
    let from = args.from@;
    let amt = args.amount@;
    let alw = pre.allowance_for(from, spender);
    assert forall|o: AccountV, sp: AccountV| #[trigger] post.allowance_for(o, sp)
        <= pre.allowance_for(o, sp) by {
        if post != pre {
            if !(o == from && sp == spender) {
                assert(post.allowance_for(o, sp) == pre.allowance_for(o, sp));
            }
        }
    }
}

/// The standard metadata entries of a ledger, in key order.
pub open spec fn icrc1_metadata_spec(m: Metadata) -> Seq<(Seq<char>, Seq<char>)> {
    let head = seq![("icrc1:decimals"@, crate::bignat::dec_str_of(m.decimals as nat))];
    let head = match m.description {
        Some(d) => head.push(("icrc1:description"@, d@)),
        None => head,
    };
    let head = match m.logo {
        Some(l) => head.push(("icrc1:logo"@, l@)),
        None => head,
    };
    head + seq![("icrc1:name"@, m.name@), ("icrc1:symbol"@, m.symbol@)]
}

} // verus!
