//! Account identity: the key under which balances and allowances are held.

use vstd::prelude::*;

verus! {

/// The unit that holds a balance: an owner identity (the opaque bytes of a
/// principal) plus an optional 32-byte subaccount discriminator. Two accounts
/// with the same owner but different subaccounts are distinct balance
/// holders.
pub struct Account {
    pub owner: Vec<u8>,
    pub subaccount: Option<Vec<u8>>,
}

impl View for Account {
    type V = (Seq<u8>, Option<Seq<u8>>);

    open spec fn view(&self) -> (Seq<u8>, Option<Seq<u8>>) {
        (
            self.owner@,
            match self.subaccount {
                Some(s) => Some(s@),
                None => None,
            },
        )
    }
}

/// The single byte that identifies the anonymous principal.
pub const ANONYMOUS_PRINCIPAL_BYTE: u8 = 4;

/// The view of an optional byte string.
pub open spec fn opt_bytes_view(m: Option<Vec<u8>>) -> Option<Seq<u8>> {
    match m {
        Some(v) => Some(v@),
        None => None,
    }
}

/// Duplicates an optional byte string.
pub fn clone_opt_bytes(m: &Option<Vec<u8>>) -> (r: Option<Vec<u8>>)
    ensures
        opt_bytes_view(r) == opt_bytes_view(*m),
{
    match m {
        Some(v) => {
            let c = v.clone();
            proof {
                assert(c@ =~= v@);
            }
            Some(c)
        },
        None => None,
    }
}

/// Whether two byte strings are equal.
pub fn bytes_eq(a: &Vec<u8>, b: &Vec<u8>) -> (r: bool)
    ensures
        r == (a@ == b@),
{
    if a.len() != b.len() {
        return false;
    }
    let n = a.len();
    let mut i: usize = 0;
    while i < n
        invariant
            i <= n,
            n == a@.len(),
            n == b@.len(),
            forall|j: int| 0 <= j < i ==> a@[j] == b@[j],
        decreases n - i,
    {
        if a[i] != b[i] {
            return false;
        }
        i = i + 1;
    }
    proof {
        assert(a@ =~= b@);
    }
    true
}

impl Account {
    /// Whether two accounts name the same balance holder.
    pub fn same_account(&self, other: &Account) -> (r: bool)
        ensures
            r == (self@ == other@),
    {
        if !bytes_eq(&self.owner, &other.owner) {
            return false;
        }
        match (&self.subaccount, &other.subaccount) {
            (None, None) => true,
            (Some(a), Some(b)) => bytes_eq(a, b),
            _ => false,
        }
    }

    /// The default account of an owner identity: no subaccount.
    pub fn for_owner(owner: Vec<u8>) -> (r: Account)
        ensures
            r@ == (owner@, None::<Seq<u8>>),
    {
        Account { owner, subaccount: None }
    }
}

impl Clone for Account {
    fn clone(&self) -> (r: Self)
        ensures
            r@ == self@,
    {
        let owner = self.owner.clone();
        let subaccount = match &self.subaccount {
            Some(s) => Some(s.clone()),
            None => None,
        };
        proof {
            assert(owner@ =~= self.owner@);
            match &self.subaccount {
                Some(s) => {
                    assert(subaccount is Some && subaccount->0@ =~= s@);
                },
                None => {},
            }
        }
        Account { owner, subaccount }
    }
}

impl Default for Account {
    /// The account of the anonymous principal, with no subaccount.
    fn default() -> (r: Self)
        ensures
            r@ == (seq![ANONYMOUS_PRINCIPAL_BYTE], None::<Seq<u8>>),
    {
        let mut owner: Vec<u8> = Vec::new();
        owner.push(ANONYMOUS_PRINCIPAL_BYTE);
        proof {
            assert(owner@ =~= seq![ANONYMOUS_PRINCIPAL_BYTE]);
        }
        Account { owner, subaccount: None }
    }
}

} // verus!
