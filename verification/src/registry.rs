//! The registry: a mapping from a human-readable symbol to one token
//! ledger, inserted by init and never removed. The registry holds no
//! business logic itself; it only locates the target ledger.
//!
//! Read operations degrade gracefully: a missing symbol yields an empty or
//! default result. Mutating operations demand that the symbol exists (the
//! hosting layer aborts the call otherwise).

use vstd::prelude::*;
use crate::account::Account;
use crate::bignat::{BigNat, dec_str_of};
use crate::crypto::{principal_text, principal_text_of};
use crate::ledger::{
    AccountBalance, AllowanceArgs, ApproveArgs, Metadata, TokenState, Transaction, TransferArgs,
    TransferFromArgs, TransferResult, approve_spec, init_spec, mint_spec, pairs_view,
    transactions_query_spec, transfer_from_spec, transfer_spec,
};

verus! {

/// A textual or key/value-list response of the call surface.
pub enum APIResponse {
    Text(String),
    PairList(Vec<(String, String)>),
}

/// The process-owned collection of ledgers, keyed by symbol.
pub struct Registry {
    pub entries: Vec<(String, TokenState)>,
}

/// Whether the symbols of a registry are pairwise distinct.
pub open spec fn reg_keys_distinct(s: Seq<(String, TokenState)>) -> bool {
    forall|i: int, j: int| 0 <= i < j < s.len() ==> s[i].0@ != s[j].0@
}

/// Whether the registry holds an entry under `sym`.
pub open spec fn reg_has(s: Seq<(String, TokenState)>, sym: Seq<char>) -> bool {
    exists|i: int| 0 <= i < s.len() && s[i].0@ == sym
}

/// The ledger stored under `sym`; meaningful only when present.
pub open spec fn reg_at(s: Seq<(String, TokenState)>, sym: Seq<char>) -> TokenState
    decreases s.len(),
{
    if s.len() == 0 {
        vstd::pervasive::arbitrary()
    } else if s[0].0@ == sym {
        s[0].1
    } else {
        reg_at(s.subrange(1, s.len() as int), sym)
    }
}

/// The entry found at an index holds the symbol's ledger.
proof fn lemma_reg_found(s: Seq<(String, TokenState)>, i: int)
    requires
        reg_keys_distinct(s),
        0 <= i < s.len(),
    ensures
        reg_has(s, s[i].0@),
        reg_at(s, s[i].0@) == s[i].1,
    decreases i,
{
    if i > 0 {
        let rest = s.subrange(1, s.len() as int);
        assert(forall|k: int| 0 <= k < rest.len() ==> rest[k] == s[k + 1]);
        lemma_reg_found(rest, i - 1);
    }
}

/// Replacing the entry at `i` under the same symbol rewrites that symbol's
/// ledger and leaves every other ledger alone.
proof fn lemma_reg_update_point(
    s: Seq<(String, TokenState)>,
    i: int,
    p: (String, TokenState),
    x: Seq<char>,
)
    requires
        reg_keys_distinct(s),
        0 <= i < s.len(),
        p.0@ == s[i].0@,
    ensures
        reg_has(s.update(i, p), x) == reg_has(s, x),
        x == s[i].0@ ==> reg_at(s.update(i, p), x) == p.1,
        x != s[i].0@ && reg_has(s, x) ==> reg_at(s.update(i, p), x) == reg_at(s, x),
    decreases s.len(),
{
    let t = s.update(i, p);
    assert(reg_has(t, x) == reg_has(s, x)) by {
        if reg_has(s, x) {
            let k = choose|k: int| 0 <= k < s.len() && s[k].0@ == x;
            assert(t[k].0@ == x);
        }
        if reg_has(t, x) {
            let k = choose|k: int| 0 <= k < t.len() && t[k].0@ == x;
            assert(s[k].0@ == x);
        }
    }
    assert(reg_at(t, x) == if t[0].0@ == x {
        t[0].1
    } else {
        reg_at(t.subrange(1, t.len() as int), x)
    });
    assert(reg_at(s, x) == if s[0].0@ == x {
        s[0].1
    } else {
        reg_at(s.subrange(1, s.len() as int), x)
    });
    if i == 0 {
        assert(t.subrange(1, t.len() as int) =~= s.subrange(1, s.len() as int));
    } else {
        let rest = s.subrange(1, s.len() as int);
        assert(forall|k: int| 0 <= k < rest.len() ==> rest[k] == s[k + 1]);
        lemma_reg_update_point(rest, i - 1, p, x);
        assert(t.subrange(1, t.len() as int) =~= rest.update(i - 1, p));
        assert(t[0] == s[0]);
        if x != s[i].0@ && reg_has(s, x) && x != s[0].0@ {
            let k = choose|k: int| 0 <= k < s.len() && s[k].0@ == x;
            assert(rest[k - 1].0@ == x);
            assert(reg_has(rest, x));
        }
    }
}

/// Replacing an entry under the same symbol keeps the symbols distinct.
proof fn lemma_reg_distinct_update(s: Seq<(String, TokenState)>, i: int, p: (String, TokenState))
    requires
        reg_keys_distinct(s),
        0 <= i < s.len(),
        p.0@ == s[i].0@,
    ensures
        reg_keys_distinct(s.update(i, p)),
{
    let t = s.update(i, p);
    assert(forall|k: int| 0 <= k < t.len() ==> t[k].0@ == s[k].0@);
}

/// Appending an entry under a fresh symbol stores its ledger there and
/// leaves every other ledger alone.
proof fn lemma_reg_push_point(s: Seq<(String, TokenState)>, p: (String, TokenState), x: Seq<char>)
    requires
        !reg_has(s, p.0@),
    ensures
        reg_has(s.push(p), x) == (reg_has(s, x) || x == p.0@),
        x == p.0@ ==> reg_at(s.push(p), x) == p.1,
        x != p.0@ && reg_has(s, x) ==> reg_at(s.push(p), x) == reg_at(s, x),
    decreases s.len(),
{
    let t = s.push(p);
    assert(t.len() == s.len() + 1);
    assert(t[t.len() - 1] == p);
    assert(reg_has(t, x) == (reg_has(s, x) || x == p.0@)) by {
        if reg_has(s, x) {
            let k = choose|k: int| 0 <= k < s.len() && s[k].0@ == x;
            assert(t[k].0@ == x);
        }
        if reg_has(t, x) {
            let k = choose|k: int| 0 <= k < t.len() && t[k].0@ == x;
            if k < s.len() {
                assert(s[k].0@ == x);
            }
        }
    }
    assert(reg_at(t, x) == if t[0].0@ == x {
        t[0].1
    } else {
        reg_at(t.subrange(1, t.len() as int), x)
    });
    if s.len() == 0 {
        assert(t.subrange(1, t.len() as int) =~= Seq::<(String, TokenState)>::empty());
        assert(t[0] == p);
    } else {
        let rest = s.subrange(1, s.len() as int);
        assert(forall|k: int| 0 <= k < rest.len() ==> rest[k] == s[k + 1]);
        assert(!reg_has(rest, p.0@)) by {
            if reg_has(rest, p.0@) {
                let k = choose|k: int| 0 <= k < rest.len() && rest[k].0@ == p.0@;
                assert(s[k + 1].0@ == p.0@);
            }
        }
        lemma_reg_push_point(rest, p, x);
        assert(t.subrange(1, t.len() as int) =~= rest.push(p));
        assert(t[0] == s[0]);
        assert(reg_at(s, x) == if s[0].0@ == x {
            s[0].1
        } else {
            reg_at(rest, x)
        });
        if x != p.0@ && reg_has(s, x) && x != s[0].0@ {
            let k = choose|k: int| 0 <= k < s.len() && s[k].0@ == x;
            assert(rest[k - 1].0@ == x);
            assert(reg_has(rest, x));
        }
    }
}

/// Appending an entry under a fresh symbol keeps the symbols distinct.
proof fn lemma_reg_distinct_push(s: Seq<(String, TokenState)>, p: (String, TokenState))
    requires
        reg_keys_distinct(s),
        !reg_has(s, p.0@),
    ensures
        reg_keys_distinct(s.push(p)),
{
    let t = s.push(p);
    assert(forall|k: int| 0 <= k < s.len() ==> t[k] == s[k]);
    assert(t[t.len() - 1] == p);
}

impl Registry {
    /// Well-formedness: distinct symbols, every stored ledger well formed.
    pub open spec fn wf(self) -> bool {
        &&& reg_keys_distinct(self.entries@)
        &&& forall|i: int| 0 <= i < self.entries@.len() ==> (#[trigger] self.entries@[i]).1.wf()
    }

    /// Whether a ledger is registered under `sym`.
    pub open spec fn has(self, sym: Seq<char>) -> bool {
        reg_has(self.entries@, sym)
    }

    /// The ledger registered under `sym`; meaningful only when present.
    pub open spec fn at(self, sym: Seq<char>) -> TokenState {
        reg_at(self.entries@, sym)
    }

    /// An empty registry, constructed once at process start.
    pub fn new() -> (r: Registry)
        ensures
            r.wf(),
            r.entries@.len() == 0,
            forall|x: Seq<char>| !(#[trigger] r.has(x)),
    {
        Registry { entries: Vec::new() }
    }
}

/// A mutating operation on one symbol leaves every other entry alone.
pub open spec fn reg_frame(pre: Registry, post: Registry, sym: Seq<char>) -> bool {
    &&& post.entries@.len() == pre.entries@.len()
    &&& forall|x: Seq<char>| (#[trigger] post.has(x)) == pre.has(x)
    &&& forall|x: Seq<char>| x != sym && pre.has(x) ==> #[trigger] post.at(x) == pre.at(x)
}

/// Finds the position of `symbol` in the registry, if any.
fn find_entry(v: &Vec<(String, TokenState)>, symbol: &String) -> (r: Option<usize>)
    ensures
        match r {
            Some(i) => i < v@.len() && v@[i as int].0@ == symbol@,
            None => !reg_has(v@, symbol@),
        },
{
    let n = v.len();
    let mut i: usize = 0;
    while i < n
        invariant
            i <= n,
            n == v@.len(),
            forall|j: int| 0 <= j < i ==> v@[j].0@ != symbol@,
        decreases n - i,
    {
        if v[i].0.eq(symbol) {
            return Some(i);
        }
        i = i + 1;
    }
    None
}

/// The text reported by a successful initialization.
pub open spec fn init_message(
    name: Seq<char>,
    symbol: Seq<char>,
    decimals: nat,
    supply: nat,
    fee: nat,
) -> Seq<char> {
    "ICRC-2 token initialized with name: "@ + name + ", symbol: "@ + symbol + ", decimals: "@
        + dec_str_of(decimals) + ", total_supply: "@ + dec_str_of(supply) + ", fee: "@ + dec_str_of(
        fee,
    )
}

/// Creates a ledger under `symbol` and registers it. A symbol collision is
/// rejected and leaves the registry unchanged (re-initialization is not
/// silent).
pub fn icrc2_init(
    reg: &mut Registry,
    name: String,
    symbol: String,
    decimals: u8,
    description: Option<String>,
    logo: Option<String>,
    initial_supply: BigNat,
    owner: Vec<u8>,
    fee: BigNat,
) -> (r: APIResponse)
    requires
        old(reg).wf(),
        owner@.len() <= 29,
    ensures
        final(reg).wf(),
        old(reg).has(symbol@) ==> final(reg).entries@ == old(reg).entries@ && (r matches
            APIResponse::Text(t) && t@ == "Token already registered under this symbol"@),
        !old(reg).has(symbol@) ==> {
            &&& final(reg).has(symbol@)
            &&& init_spec(
                final(reg).at(symbol@),
                name@,
                symbol@,
                decimals,
                initial_supply@,
                owner@,
                fee@,
            )
            &&& final(reg).entries@.len() == old(reg).entries@.len() + 1
            &&& forall|x: Seq<char>|
                x != symbol@ ==> (#[trigger] final(reg).has(x)) == old(reg).has(x)
            &&& forall|x: Seq<char>|
                x != symbol@ && old(reg).has(x) ==> #[trigger] final(reg).at(x) == old(reg).at(x)
            &&& r matches APIResponse::Text(t) && t@ == init_message(
                name@,
                symbol@,
                decimals as nat,
                initial_supply@,
                fee@,
            )
        },
{
    if let Some(_) = find_entry(&reg.entries, &symbol) {
        return APIResponse::Text("Token already registered under this symbol".to_owned());
    }
    let dec_text = BigNat::from_u64(decimals as u64).to_dec_string();
    let supply_text = initial_supply.to_dec_string();
    let fee_text = fee.to_dec_string();
    let name_text = name.clone();
    let symbol_text = symbol.clone();
    let key = symbol.clone();
    let ledger = TokenState::init(
        name,
        symbol,
        decimals,
        description,
        logo,
        initial_supply,
        owner,
        fee,
    );
    let entry = (key, ledger);
    let ghost pre = reg.entries@;
    proof {
        lemma_reg_distinct_push(pre, entry);
        lemma_reg_push_point(pre, entry, symbol_text@);
    }
    reg.entries.push(entry);
    proof {
        assert forall|x: Seq<char>| x != symbol_text@ implies (#[trigger] reg.has(x)) == old(
            reg,
        ).has(x) by {
            lemma_reg_push_point(pre, entry, x);
        }
        assert forall|x: Seq<char>| x != symbol_text@ && old(reg).has(x) implies #[trigger] reg.at(
            x,
        ) == old(reg).at(x) by {
            lemma_reg_push_point(pre, entry, x);
        }
        assert(forall|k: int| 0 <= k < pre.len() ==> reg.entries@[k] == pre[k]);
        assert(reg.entries@[pre.len() as int] == entry);
    }
    let mut msg = String::new();
    msg.append("ICRC-2 token initialized with name: ");
    msg.append(name_text.as_str());
    msg.append(", symbol: ");
    msg.append(symbol_text.as_str());
    msg.append(", decimals: ");
    msg.append(dec_text.as_str());
    msg.append(", total_supply: ");
    msg.append(supply_text.as_str());
    msg.append(", fee: ");
    msg.append(fee_text.as_str());
    APIResponse::Text(msg)
}

/// The name of the token registered under `symbol`, or empty text on a
/// miss.
pub fn icrc2_name(reg: &Registry, symbol: &String) -> (r: String)
    requires
        reg.wf(),
    ensures
        reg.has(symbol@) ==> r@ == reg.at(symbol@).metadata.name@,
        !reg.has(symbol@) ==> r@ == Seq::<char>::empty(),
{
    match find_entry(&reg.entries, symbol) {
        Some(i) => {
            proof {
                lemma_reg_found(reg.entries@, i as int);
            }
            reg.entries[i].1.name()
        },
        None => String::new(),
    }
}

/// The symbol of the token registered under `symbol`, or empty text on a
/// miss.
pub fn icrc2_symbol(reg: &Registry, symbol: &String) -> (r: String)
    requires
        reg.wf(),
    ensures
        reg.has(symbol@) ==> r@ == reg.at(symbol@).metadata.symbol@,
        !reg.has(symbol@) ==> r@ == Seq::<char>::empty(),
{
    match find_entry(&reg.entries, symbol) {
        Some(i) => {
            proof {
                lemma_reg_found(reg.entries@, i as int);
            }
            reg.entries[i].1.symbol()
        },
        None => String::new(),
    }
}

/// The decimals of the token registered under `symbol`, or eight on a
/// miss.
pub fn icrc2_decimals(reg: &Registry, symbol: &String) -> (r: u8)
    requires
        reg.wf(),
    ensures
        reg.has(symbol@) ==> r == reg.at(symbol@).metadata.decimals,
        !reg.has(symbol@) ==> r == 8,
{
    match find_entry(&reg.entries, symbol) {
        Some(i) => {
            proof {
                lemma_reg_found(reg.entries@, i as int);
            }
            reg.entries[i].1.decimals()
        },
        None => 8,
    }
}

/// The fee of the token registered under `symbol`, or zero on a miss.
pub fn icrc2_fee(reg: &Registry, symbol: &String) -> (r: BigNat)
    requires
        reg.wf(),
    ensures
        reg.has(symbol@) ==> r@ == reg.at(symbol@).metadata.fee@,
        !reg.has(symbol@) ==> r@ == 0,
{
    match find_entry(&reg.entries, symbol) {
        Some(i) => {
            proof {
                lemma_reg_found(reg.entries@, i as int);
            }
            reg.entries[i].1.fee()
        },
        None => BigNat::zero(),
    }
}

/// The total supply of the token registered under `symbol`, or zero on a
/// miss.
pub fn icrc2_total_supply(reg: &Registry, symbol: &String) -> (r: BigNat)
    requires
        reg.wf(),
    ensures
        reg.has(symbol@) ==> r@ == reg.at(symbol@).metadata.total_supply@,
        !reg.has(symbol@) ==> r@ == 0,
{
    match find_entry(&reg.entries, symbol) {
        Some(i) => {
            proof {
                lemma_reg_found(reg.entries@, i as int);
            }
            reg.entries[i].1.total_supply()
        },
        None => BigNat::zero(),
    }
}

/// The minting account of the token registered under `symbol`, if any.
pub fn icrc2_minting_account(reg: &Registry, symbol: &String) -> (r: Option<Account>)
    requires
        reg.wf(),
    ensures
        reg.has(symbol@) ==> (r matches Some(a) && a@ == reg.at(symbol@).minting_account@),
        !reg.has(symbol@) ==> r is None,
{
    match find_entry(&reg.entries, symbol) {
        Some(i) => {
            proof {
                lemma_reg_found(reg.entries@, i as int);
            }
            Some(reg.entries[i].1.minting_account())
        },
        None => None,
    }
}

/// The balance of `account` in the token registered under `symbol`; zero
/// on a miss of either.
pub fn icrc2_balance_of(reg: &Registry, account: &Account, symbol: &String) -> (r: BigNat)
    requires
        reg.wf(),
    ensures
        reg.has(symbol@) ==> r@ == reg.at(symbol@).balance(account@),
        !reg.has(symbol@) ==> r@ == 0,
{
    match find_entry(&reg.entries, symbol) {
        Some(i) => {
            proof {
                lemma_reg_found(reg.entries@, i as int);
            }
            reg.entries[i].1.balance_of(account)
        },
        None => BigNat::zero(),
    }
}

/// The allowance of an (owner, spender) pair in the token registered under
/// `symbol`; zero on a miss of either.
pub fn icrc2_allowance(reg: &Registry, args: &AllowanceArgs, symbol: &String) -> (r: BigNat)
    requires
        reg.wf(),
    ensures
        reg.has(symbol@) ==> r@ == reg.at(symbol@).allowance_for(args.account@, args.spender@),
        !reg.has(symbol@) ==> r@ == 0,
{
    match find_entry(&reg.entries, symbol) {
        Some(i) => {
            proof {
                lemma_reg_found(reg.entries@, i as int);
            }
            reg.entries[i].1.allowance(args)
        },
        None => BigNat::zero(),
    }
}

/// The transaction log of the token registered under `symbol`, bounded as
/// `TokenState::get_transactions`; empty on a miss.
pub fn icrc2_get_transactions(reg: &Registry, limit: u64, symbol: &String) -> (r: Vec<Transaction>)
    requires
        reg.wf(),
    ensures
        reg.has(symbol@) ==> transactions_query_spec(reg.at(symbol@), limit, r@),
        !reg.has(symbol@) ==> r@.len() == 0,
{
    match find_entry(&reg.entries, symbol) {
        Some(i) => {
            proof {
                lemma_reg_found(reg.entries@, i as int);
            }
            reg.entries[i].1.get_transactions(limit)
        },
        None => Vec::new(),
    }
}

/// Every account and balance of the token registered under `symbol`;
/// empty on a miss.
pub fn icrc2_get_all_accounts(reg: &Registry, symbol: &String) -> (r: Vec<AccountBalance>)
    requires
        reg.wf(),
    ensures
        reg.has(symbol@) ==> crate::ledger::accounts_listing_spec(reg.at(symbol@), r@),
        !reg.has(symbol@) ==> r@.len() == 0,
{
    match find_entry(&reg.entries, symbol) {
        Some(i) => {
            proof {
                lemma_reg_found(reg.entries@, i as int);
            }
            reg.entries[i].1.get_all_accounts()
        },
        None => Vec::new(),
    }
}

/// Replaces entry `i`'s ledger (same symbol) and carries the registry's
/// well-formedness and frame.
proof fn lemma_reg_after_update(
    pre: Seq<(String, TokenState)>,
    post: Seq<(String, TokenState)>,
    i: int,
    p: (String, TokenState),
    sym: Seq<char>,
)
    requires
        reg_keys_distinct(pre),
        forall|k: int| 0 <= k < pre.len() ==> (#[trigger] pre[k]).1.wf(),
        0 <= i < pre.len(),
        p.0@ == pre[i].0@,
        pre[i].0@ == sym,
        p.1.wf(),
        post == pre.update(i, p),
    ensures
        reg_keys_distinct(post),
        forall|k: int| 0 <= k < post.len() ==> (#[trigger] post[k]).1.wf(),
        post.len() == pre.len(),
        forall|x: Seq<char>| (#[trigger] reg_has(post, x)) == reg_has(pre, x),
        forall|x: Seq<char>| x != sym && reg_has(pre, x) ==> #[trigger] reg_at(post, x) == reg_at(
            pre,
            x,
        ),
        reg_at(post, sym) == p.1,
{
    lemma_reg_distinct_update(pre, i, p);
    assert forall|x: Seq<char>| (#[trigger] reg_has(post, x)) == reg_has(pre, x) by {
        lemma_reg_update_point(pre, i, p, x);
    }
    assert forall|x: Seq<char>| x != sym && reg_has(pre, x) implies #[trigger] reg_at(post, x)
        == reg_at(pre, x) by {
        lemma_reg_update_point(pre, i, p, x);
    }
    lemma_reg_update_point(pre, i, p, sym);
}

/// Moves value inside the token registered under `symbol`, exactly as
/// `TokenState::transfer`; the hosting layer must check the symbol exists
/// before calling (a miss aborts the call there).
pub fn icrc2_transfer(
    reg: &mut Registry,
    symbol: &String,
    args: &TransferArgs,
    caller: &Vec<u8>,
    now: u64,
) -> (r: TransferResult)
    requires
        old(reg).wf(),
        old(reg).has(symbol@),
        old(reg).at(symbol@).transaction_counter < u64::MAX,
    ensures
        final(reg).wf(),
        transfer_spec(old(reg).at(symbol@), final(reg).at(symbol@), r, caller@, *args, now),
        reg_frame(*old(reg), *final(reg), symbol@),
{
    match find_entry(&reg.entries, symbol) {
        Some(i) => {
            proof {
                lemma_reg_found(reg.entries@, i as int);
            }
            let ghost pre = reg.entries@;
            let (key, mut st) = reg.entries.remove(i);
            let r = st.transfer(caller, args, now);
            let entry = (key, st);
            reg.entries.insert(i, entry);
            proof {
                assert(reg.entries@ =~= pre.update(i as int, entry));
                lemma_reg_after_update(pre, reg.entries@, i as int, entry, symbol@);
            }
            r
        },
        None => vstd::pervasive::unreached(),
    }
}

/// Creates tokens inside the token registered under `symbol`, exactly as
/// `TokenState::mint`: only the minting account's owner may mint, and a
/// refusal is the structured authorization error.
pub fn icrc2_mint(
    reg: &mut Registry,
    to: &Account,
    amount: &BigNat,
    symbol: &String,
    caller: &Vec<u8>,
    now: u64,
) -> (r: TransferResult)
    requires
        old(reg).wf(),
        old(reg).has(symbol@),
        old(reg).at(symbol@).transaction_counter < u64::MAX,
    ensures
        final(reg).wf(),
        mint_spec(old(reg).at(symbol@), final(reg).at(symbol@), r, caller@, *to, amount@, now),
        reg_frame(*old(reg), *final(reg), symbol@),
{
    match find_entry(&reg.entries, symbol) {
        Some(i) => {
            proof {
                lemma_reg_found(reg.entries@, i as int);
            }
            let ghost pre = reg.entries@;
            let (key, mut st) = reg.entries.remove(i);
            let r = st.mint(caller, to, amount, now);
            let entry = (key, st);
            reg.entries.insert(i, entry);
            proof {
                assert(reg.entries@ =~= pre.update(i as int, entry));
                lemma_reg_after_update(pre, reg.entries@, i as int, entry, symbol@);
            }
            r
        },
        None => vstd::pervasive::unreached(),
    }
}

/// The text reported by a successful mint.
pub open spec fn minted_message(amount: nat, owner: Seq<u8>) -> Seq<char> {
    "Minted "@ + dec_str_of(amount) + " tokens to "@ + principal_text_of(owner)
}

/// Renders a successful mint for a textual status surface: the amount and
/// the recipient's principal.
pub fn minted_text(amount: &BigNat, owner: &Vec<u8>) -> (r: String)
    requires
        owner@.len() <= 29,
    ensures
        r@ == minted_message(amount@, owner@),
{
    let mut msg = String::new();
    msg.append("Minted ");
    let amount_text = amount.to_dec_string();
    msg.append(amount_text.as_str());
    msg.append(" tokens to ");
    let owner_text = principal_text(owner);
    msg.append(owner_text.as_str());
    msg
}

/// Overwrites an allowance inside the token registered under `symbol`,
/// exactly as `TokenState::approve`.
pub fn icrc2_approve(
    reg: &mut Registry,
    args: &ApproveArgs,
    symbol: &String,
    caller: &Vec<u8>,
) -> (r: TransferResult)
    requires
        old(reg).wf(),
        old(reg).has(symbol@),
    ensures
        final(reg).wf(),
        approve_spec(old(reg).at(symbol@), final(reg).at(symbol@), r, caller@, *args),
        reg_frame(*old(reg), *final(reg), symbol@),
{
    match find_entry(&reg.entries, symbol) {
        Some(i) => {
            proof {
                lemma_reg_found(reg.entries@, i as int);
            }
            let ghost pre = reg.entries@;
            let (key, mut st) = reg.entries.remove(i);
            let r = st.approve(caller, args);
            let entry = (key, st);
            reg.entries.insert(i, entry);
            proof {
                assert(reg.entries@ =~= pre.update(i as int, entry));
                lemma_reg_after_update(pre, reg.entries@, i as int, entry, symbol@);
            }
            r
        },
        None => vstd::pervasive::unreached(),
    }
}

/// Spends an allowance inside the token registered under `symbol`, exactly
/// as `TokenState::transfer_from`.
pub fn icrc2_transfer_from(
    reg: &mut Registry,
    args: &TransferFromArgs,
    symbol: &String,
    caller: &Vec<u8>,
    now: u64,
) -> (r: TransferResult)
    requires
        old(reg).wf(),
        old(reg).has(symbol@),
        old(reg).at(symbol@).transaction_counter < u64::MAX,
    ensures
        final(reg).wf(),
        transfer_from_spec(old(reg).at(symbol@), final(reg).at(symbol@), r, caller@, *args, now),
        reg_frame(*old(reg), *final(reg), symbol@),
{
    match find_entry(&reg.entries, symbol) {
        Some(i) => {
            proof {
                lemma_reg_found(reg.entries@, i as int);
            }
            let ghost pre = reg.entries@;
            let (key, mut st) = reg.entries.remove(i);
            let r = st.transfer_from(caller, args, now);
            let entry = (key, st);
            reg.entries.insert(i, entry);
            proof {
                assert(reg.entries@ =~= pre.update(i as int, entry));
                lemma_reg_after_update(pre, reg.entries@, i as int, entry, symbol@);
            }
            r
        },
        None => vstd::pervasive::unreached(),
    }
}

/// The metadata entries presented for the token registered under `symbol`.
pub open spec fn icrc2_metadata_spec(m: Metadata) -> Seq<(Seq<char>, Seq<char>)> {
    let base = seq![
        ("name"@, m.name@),
        ("symbol"@, m.symbol@),
        ("decimals"@, dec_str_of(m.decimals as nat)),
        ("total_supply"@, dec_str_of(m.total_supply@)),
        ("owner"@, principal_text_of(m.owner@)),
        ("fee"@, dec_str_of(m.fee@)),
    ];
    let base = match m.description {
        Some(d) => base.push(("description"@, d@)),
        None => base,
    };
    match m.logo {
        Some(l) => base.push(("logo"@, l@)),
        None => base,
    }
}

/// The metadata of the token registered under `symbol` as key/value pairs,
/// or an explanatory text on a miss.
pub fn icrc2_metadata(reg: &Registry, symbol: &String) -> (r: APIResponse)
    requires
        reg.wf(),
    ensures
        reg.has(symbol@) ==> (r matches APIResponse::PairList(v) && pairs_view(v@)
            == icrc2_metadata_spec(reg.at(symbol@).metadata)),
        !reg.has(symbol@) ==> (r matches APIResponse::Text(t) && t@ == "Token not found"@),
{
    match find_entry(&reg.entries, symbol) {
        Some(i) => {
            proof {
                lemma_reg_found(reg.entries@, i as int);
            }
            let st = &reg.entries[i].1;
            let mut v: Vec<(String, String)> = Vec::new();
            v.push(("name".to_owned(), st.metadata.name.clone()));
            v.push(("symbol".to_owned(), st.metadata.symbol.clone()));
            v.push(
                (
                    "decimals".to_owned(),
                    BigNat::from_u64(st.metadata.decimals as u64).to_dec_string(),
                ),
            );
            v.push(("total_supply".to_owned(), st.metadata.total_supply.to_dec_string()));
            v.push(("owner".to_owned(), principal_text(&st.metadata.owner)));
            v.push(("fee".to_owned(), st.metadata.fee.to_dec_string()));
            if let Some(d) = &st.metadata.description {
                v.push(("description".to_owned(), d.clone()));
            }
            if let Some(l) = &st.metadata.logo {
                v.push(("logo".to_owned(), l.clone()));
            }
            proof {
                assert(pairs_view(v@) =~= icrc2_metadata_spec(st.metadata));
            }
            APIResponse::PairList(v)
        },
        None => APIResponse::Text("Token not found".to_owned()),
    }
}

/// The (symbol, name) pair of every registered token, in registration
/// order.
pub open spec fn record_pairs(s: Seq<(String, TokenState)>) -> Seq<(Seq<char>, Seq<char>)>
    decreases s.len(),
{
    if s.len() == 0 {
        Seq::empty()
    } else {
        record_pairs(s.drop_last()).push((s.last().0@, s.last().1.metadata.name@))
    }
}

/// The (symbol, name) pairs of the tokens whose administrative owner is
/// `caller`, in registration order.
pub open spec fn owned_pairs(s: Seq<(String, TokenState)>, caller: Seq<u8>) -> Seq<
    (Seq<char>, Seq<char>),
>
    decreases s.len(),
{
    if s.len() == 0 {
        Seq::empty()
    } else if s.last().1.metadata.owner@ == caller {
        owned_pairs(s.drop_last(), caller).push((s.last().0@, s.last().1.metadata.name@))
    } else {
        owned_pairs(s.drop_last(), caller)
    }
}

/// Every registered token as a (symbol, name) pair.
pub fn icrc2_get_all_records(reg: &Registry) -> (r: APIResponse)
    ensures
        r matches APIResponse::PairList(v) && pairs_view(v@) == record_pairs(reg.entries@),
{
    let n = reg.entries.len();
    let mut out: Vec<(String, String)> = Vec::new();
    proof {
        assert(reg.entries@.take(0) =~= Seq::<(String, TokenState)>::empty());
    }
    let mut i: usize = 0;
    while i < n
        invariant
            i <= n,
            n == reg.entries@.len(),
            pairs_view(out@) =~= record_pairs(reg.entries@.take(i as int)),
        decreases n - i,
    {
        let pair = (reg.entries[i].0.clone(), reg.entries[i].1.metadata.name.clone());
        out.push(pair);
        proof {
            let t = reg.entries@.take(i + 1);
            assert(t.drop_last() =~= reg.entries@.take(i as int));
            assert(t.last() == reg.entries@[i as int]);
            assert(pairs_view(out@) =~= record_pairs(t));
        }
        i = i + 1;
    }
    proof {
        assert(reg.entries@.take(n as int) =~= reg.entries@);
        assert(pairs_view(out@) == record_pairs(reg.entries@));
    }
    APIResponse::PairList(out)
}

/// The (symbol, name) pairs of the tokens administered by the caller.
pub fn my_tokens(reg: &Registry, caller: &Vec<u8>) -> (r: APIResponse)
    ensures
        r matches APIResponse::PairList(v) && pairs_view(v@) == owned_pairs(
            reg.entries@,
            caller@,
        ),
{
    let n = reg.entries.len();
    let mut out: Vec<(String, String)> = Vec::new();
    proof {
        assert(reg.entries@.take(0) =~= Seq::<(String, TokenState)>::empty());
    }
    let mut i: usize = 0;
    while i < n
        invariant
            i <= n,
            n == reg.entries@.len(),
            pairs_view(out@) =~= owned_pairs(reg.entries@.take(i as int), caller@),
        decreases n - i,
    {
        if crate::account::bytes_eq(&reg.entries[i].1.metadata.owner, caller) {
            let pair = (reg.entries[i].0.clone(), reg.entries[i].1.metadata.name.clone());
            out.push(pair);
        }
        proof {
            let t = reg.entries@.take(i + 1);
            assert(t.drop_last() =~= reg.entries@.take(i as int));
            assert(t.last() == reg.entries@[i as int]);
            assert(pairs_view(out@) =~= owned_pairs(t, caller@));
        }
        i = i + 1;
    }
    proof {
        assert(reg.entries@.take(n as int) =~= reg.entries@);
        assert(pairs_view(out@) == owned_pairs(reg.entries@, caller@));
    }
    APIResponse::PairList(out)
}

} // verus!
