//! Balance and allowance tables.
//!
//! Balances are held as an association list from account to amount, with
//! pairwise-distinct keys; an account that is absent holds zero. Allowances
//! are held the same way under an (owner, spender) pair of accounts.

use vstd::prelude::*;
use crate::account::Account;
use crate::bignat::BigNat;

verus! {

/// The mathematical identity of an account.
pub type AccountV = (Seq<u8>, Option<Seq<u8>>);

/// Whether the keys of a balance table are pairwise distinct.
pub open spec fn bal_keys_distinct(s: Seq<(Account, BigNat)>) -> bool {
    forall|i: int, j: int| 0 <= i < j < s.len() ==> s[i].0@ != s[j].0@
}

/// Whether the table holds an entry for `x`.
pub open spec fn bal_has_key(s: Seq<(Account, BigNat)>, x: AccountV) -> bool {
    exists|i: int| 0 <= i < s.len() && s[i].0@ == x
}

/// The balance of `x`: the stored amount, or zero when absent.
pub open spec fn bal_of(s: Seq<(Account, BigNat)>, x: AccountV) -> nat
    decreases s.len(),
{
    if s.len() == 0 {
        0
    } else if s[0].0@ == x {
        s[0].1@
    } else {
        bal_of(s.subrange(1, s.len() as int), x)
    }
}

/// The sum of every stored amount.
pub open spec fn sum_bal(s: Seq<(Account, BigNat)>) -> nat
    decreases s.len(),
{
    if s.len() == 0 {
        0
    } else {
        s[0].1@ + sum_bal(s.subrange(1, s.len() as int))
    }
}

/// An absent account holds zero.
pub proof fn lemma_bal_absent(s: Seq<(Account, BigNat)>, x: AccountV)
    requires
        !bal_has_key(s, x),
    ensures
        bal_of(s, x) == 0,
    decreases s.len(),
{
    if s.len() > 0 {
        let rest = s.subrange(1, s.len() as int);
        assert(forall|i: int| 0 <= i < rest.len() ==> rest[i] == s[i + 1]);
        lemma_bal_absent(rest, x);
    }
}

/// The entry found at an index holds the key's balance.
pub proof fn lemma_bal_found(s: Seq<(Account, BigNat)>, i: int)
    requires
        bal_keys_distinct(s),
        0 <= i < s.len(),
    ensures
        bal_of(s, s[i].0@) == s[i].1@,
    decreases i,
{
    if i > 0 {
        let rest = s.subrange(1, s.len() as int);
        assert(forall|k: int| 0 <= k < rest.len() ==> rest[k] == s[k + 1]);
        lemma_bal_found(rest, i - 1);
    }
}

/// No single balance exceeds the sum of all balances.
pub proof fn lemma_bal_le_sum(s: Seq<(Account, BigNat)>, x: AccountV)
    ensures
        bal_of(s, x) <= sum_bal(s),
    decreases s.len(),
{
    if s.len() > 0 {
        lemma_bal_le_sum(s.subrange(1, s.len() as int), x);
    }
}

/// Replacing the amount of the entry at `i` rewrites that key's balance and
/// leaves every other balance alone.
pub proof fn lemma_bal_update_point(
    s: Seq<(Account, BigNat)>,
    i: int,
    p: (Account, BigNat),
    x: AccountV,
)
    requires
        bal_keys_distinct(s),
        0 <= i < s.len(),
        p.0@ == s[i].0@,
    ensures
        bal_of(s.update(i, p), x) == if x == s[i].0@ {
            p.1@
        } else {
            bal_of(s, x)
        },
    decreases s.len(),
{
    let t = s.update(i, p);
    if i == 0 {
        assert(t.subrange(1, t.len() as int) =~= s.subrange(1, s.len() as int));
    } else {
        let rest = s.subrange(1, s.len() as int);
        assert(forall|k: int| 0 <= k < rest.len() ==> rest[k] == s[k + 1]);
        lemma_bal_update_point(rest, i - 1, p, x);
        assert(t.subrange(1, t.len() as int) =~= rest.update(i - 1, p));
        assert(t[0] == s[0]);
    }
}

/// Replacing the entry at `i` moves the sum by the difference of the amounts.
pub proof fn lemma_sum_update(s: Seq<(Account, BigNat)>, i: int, p: (Account, BigNat))
    requires
        0 <= i < s.len(),
    ensures
        sum_bal(s.update(i, p)) == sum_bal(s) - s[i].1@ + p.1@,
    decreases s.len(),
{
    let t = s.update(i, p);
    if i == 0 {
        assert(t.subrange(1, t.len() as int) =~= s.subrange(1, s.len() as int));
    } else {
        let rest = s.subrange(1, s.len() as int);
        lemma_sum_update(rest, i - 1, p);
        assert(t.subrange(1, t.len() as int) =~= rest.update(i - 1, p));
        assert(rest[i - 1] == s[i]);
        assert(t[0] == s[0]);
    }
}

/// Replacing an entry with one under the same key keeps the keys distinct.
pub proof fn lemma_distinct_update(s: Seq<(Account, BigNat)>, i: int, p: (Account, BigNat))
    requires
        bal_keys_distinct(s),
        0 <= i < s.len(),
        p.0@ == s[i].0@,
    ensures
        bal_keys_distinct(s.update(i, p)),
{
    let t = s.update(i, p);
    assert(forall|k: int| 0 <= k < t.len() ==> t[k].0@ == s[k].0@);
}

/// Appending an entry under a fresh key gives that key its amount and leaves
/// every other balance alone.
pub proof fn lemma_bal_push_point(s: Seq<(Account, BigNat)>, p: (Account, BigNat), x: AccountV)
    requires
        !bal_has_key(s, p.0@),
    ensures
        bal_of(s.push(p), x) == if x == p.0@ {
            p.1@
        } else {
            bal_of(s, x)
        },
    decreases s.len(),
{
    let t = s.push(p);
    assert(t.len() == s.len() + 1);
    if s.len() == 0 {
        assert(t.subrange(1, t.len() as int) =~= Seq::<(Account, BigNat)>::empty());
        assert(t[0] == p);
        assert(bal_of(t, x) == if t[0].0@ == x {
            t[0].1@
        } else {
            bal_of(t.subrange(1, t.len() as int), x)
        });
        assert(bal_of(Seq::<(Account, BigNat)>::empty(), x) == 0);
    } else {
        let rest = s.subrange(1, s.len() as int);
        assert(forall|k: int| 0 <= k < rest.len() ==> rest[k] == s[k + 1]);
        assert(!bal_has_key(rest, p.0@)) by {
            if bal_has_key(rest, p.0@) {
                let k = choose|k: int| 0 <= k < rest.len() && rest[k].0@ == p.0@;
                assert(s[k + 1].0@ == p.0@);
            }
        }
        assert(s[0].0@ != p.0@);
        lemma_bal_push_point(rest, p, x);
        assert(t.subrange(1, t.len() as int) =~= rest.push(p));
        assert(t[0] == s[0]);
        assert(bal_of(t, x) == if t[0].0@ == x {
            t[0].1@
        } else {
            bal_of(t.subrange(1, t.len() as int), x)
        });
        assert(bal_of(s, x) == if s[0].0@ == x {
            s[0].1@
        } else {
            bal_of(rest, x)
        });
    }
}

/// Appending an entry adds its amount to the sum.
pub proof fn lemma_sum_push(s: Seq<(Account, BigNat)>, p: (Account, BigNat))
    ensures
        sum_bal(s.push(p)) == sum_bal(s) + p.1@,
    decreases s.len(),
{
    let t = s.push(p);
    assert(t.len() == s.len() + 1);
    assert(sum_bal(t) == t[0].1@ + sum_bal(t.subrange(1, t.len() as int)));
    if s.len() == 0 {
        assert(t.subrange(1, t.len() as int) =~= Seq::<(Account, BigNat)>::empty());
        assert(t[0] == p);
        assert(sum_bal(Seq::<(Account, BigNat)>::empty()) == 0);
    } else {
        let rest = s.subrange(1, s.len() as int);
        lemma_sum_push(rest, p);
        assert(t.subrange(1, t.len() as int) =~= rest.push(p));
        assert(sum_bal(t.subrange(1, t.len() as int)) == sum_bal(rest) + p.1@);
        assert(t[0] == s[0]);
        assert(sum_bal(s) == s[0].1@ + sum_bal(rest));
    }
}

/// Appending an entry under a fresh key keeps the keys distinct.
pub proof fn lemma_distinct_push(s: Seq<(Account, BigNat)>, p: (Account, BigNat))
    requires
        bal_keys_distinct(s),
        !bal_has_key(s, p.0@),
    ensures
        bal_keys_distinct(s.push(p)),
{
    let t = s.push(p);
    assert(forall|k: int| 0 <= k < s.len() ==> t[k] == s[k]);
    assert(t[t.len() - 1] == p);
}

/// Whether the (owner, spender) keys of an allowance table are pairwise
/// distinct.
pub open spec fn allow_keys_distinct(s: Seq<(Account, Account, BigNat)>) -> bool {
    forall|i: int, j: int|
        0 <= i < j < s.len() ==> (s[i].0@, s[i].1@) != (s[j].0@, s[j].1@)
}

/// Whether the table holds an entry for the pair.
pub open spec fn allow_has_key(s: Seq<(Account, Account, BigNat)>, o: AccountV, sp: AccountV) -> bool {
    exists|i: int| 0 <= i < s.len() && s[i].0@ == o && s[i].1@ == sp
}

/// The allowance of `(o, sp)`: the stored amount, or zero when absent.
pub open spec fn allow_of(s: Seq<(Account, Account, BigNat)>, o: AccountV, sp: AccountV) -> nat
    decreases s.len(),
{
    if s.len() == 0 {
        0
    } else if s[0].0@ == o && s[0].1@ == sp {
        s[0].2@
    } else {
        allow_of(s.subrange(1, s.len() as int), o, sp)
    }
}

/// An absent pair has allowance zero.
pub proof fn lemma_allow_absent(s: Seq<(Account, Account, BigNat)>, o: AccountV, sp: AccountV)
    requires
        !allow_has_key(s, o, sp),
    ensures
        allow_of(s, o, sp) == 0,
    decreases s.len(),
{
    if s.len() > 0 {
        let rest = s.subrange(1, s.len() as int);
        assert(forall|i: int| 0 <= i < rest.len() ==> rest[i] == s[i + 1]);
        lemma_allow_absent(rest, o, sp);
    }
}

/// The entry found at an index holds the pair's allowance.
pub proof fn lemma_allow_found(s: Seq<(Account, Account, BigNat)>, i: int)
    requires
        allow_keys_distinct(s),
        0 <= i < s.len(),
    ensures
        allow_of(s, s[i].0@, s[i].1@) == s[i].2@,
    decreases i,
{
    if i > 0 {
        let rest = s.subrange(1, s.len() as int);
        assert(forall|k: int| 0 <= k < rest.len() ==> rest[k] == s[k + 1]);
        lemma_allow_found(rest, i - 1);
    }
}

/// Replacing the amount of the entry at `i` rewrites that pair's allowance
/// and leaves every other allowance alone.
pub proof fn lemma_allow_update_point(
    s: Seq<(Account, Account, BigNat)>,
    i: int,
    p: (Account, Account, BigNat),
    o: AccountV,
    sp: AccountV,
)
    requires
        allow_keys_distinct(s),
        0 <= i < s.len(),
        p.0@ == s[i].0@,
        p.1@ == s[i].1@,
    ensures
        allow_of(s.update(i, p), o, sp) == if o == s[i].0@ && sp == s[i].1@ {
            p.2@
        } else {
            allow_of(s, o, sp)
        },
    decreases s.len(),
{
    let t = s.update(i, p);
    if i == 0 {
        assert(t.subrange(1, t.len() as int) =~= s.subrange(1, s.len() as int));
    } else {
        let rest = s.subrange(1, s.len() as int);
        assert(forall|k: int| 0 <= k < rest.len() ==> rest[k] == s[k + 1]);
        lemma_allow_update_point(rest, i - 1, p, o, sp);
        assert(t.subrange(1, t.len() as int) =~= rest.update(i - 1, p));
        assert(t[0] == s[0]);
    }
}

/// Replacing an entry with one under the same pair keeps the keys distinct.
pub proof fn lemma_allow_distinct_update(
    s: Seq<(Account, Account, BigNat)>,
    i: int,
    p: (Account, Account, BigNat),
)
    requires
        allow_keys_distinct(s),
        0 <= i < s.len(),
        p.0@ == s[i].0@,
        p.1@ == s[i].1@,
    ensures
        allow_keys_distinct(s.update(i, p)),
{
    let t = s.update(i, p);
    assert(forall|k: int| 0 <= k < t.len() ==> t[k].0@ == s[k].0@ && t[k].1@ == s[k].1@);
}

/// Appending an entry under a fresh pair gives that pair its amount and
/// leaves every other allowance alone.
pub proof fn lemma_allow_push_point(
    s: Seq<(Account, Account, BigNat)>,
    p: (Account, Account, BigNat),
    o: AccountV,
    sp: AccountV,
)
    requires
        !allow_has_key(s, p.0@, p.1@),
    ensures
        allow_of(s.push(p), o, sp) == if o == p.0@ && sp == p.1@ {
            p.2@
        } else {
            allow_of(s, o, sp)
        },
    decreases s.len(),
{
    let t = s.push(p);
    assert(t.len() == s.len() + 1);
    if s.len() == 0 {
        assert(t.subrange(1, t.len() as int) =~= Seq::<(Account, Account, BigNat)>::empty());
        assert(t[0] == p);
        assert(allow_of(t, o, sp) == if t[0].0@ == o && t[0].1@ == sp {
            t[0].2@
        } else {
            allow_of(t.subrange(1, t.len() as int), o, sp)
        });
        assert(allow_of(Seq::<(Account, Account, BigNat)>::empty(), o, sp) == 0);
    } else {
        let rest = s.subrange(1, s.len() as int);
        assert(forall|k: int| 0 <= k < rest.len() ==> rest[k] == s[k + 1]);
        assert(!allow_has_key(rest, p.0@, p.1@)) by {
            if allow_has_key(rest, p.0@, p.1@) {
                let k = choose|k: int|
                    0 <= k < rest.len() && rest[k].0@ == p.0@ && rest[k].1@ == p.1@;
                assert(s[k + 1].0@ == p.0@ && s[k + 1].1@ == p.1@);
            }
        }
        lemma_allow_push_point(rest, p, o, sp);
        assert(t.subrange(1, t.len() as int) =~= rest.push(p));
        assert(t[0] == s[0]);
        assert(allow_of(t, o, sp) == if t[0].0@ == o && t[0].1@ == sp {
            t[0].2@
        } else {
            allow_of(t.subrange(1, t.len() as int), o, sp)
        });
        assert(allow_of(s, o, sp) == if s[0].0@ == o && s[0].1@ == sp {
            s[0].2@
        } else {
            allow_of(rest, o, sp)
        });
    }
}

/// Appending an entry under a fresh pair keeps the keys distinct.
pub proof fn lemma_allow_distinct_push(
    s: Seq<(Account, Account, BigNat)>,
    p: (Account, Account, BigNat),
)
    requires
        allow_keys_distinct(s),
        !allow_has_key(s, p.0@, p.1@),
    ensures
        allow_keys_distinct(s.push(p)),
{
    let t = s.push(p);
    assert(forall|k: int| 0 <= k < s.len() ==> t[k] == s[k]);
    assert(t[t.len() - 1] == p);
}

/// Reads the allowance of `(o, sp)` out of the table.
pub fn get_allow(v: &Vec<(Account, Account, BigNat)>, o: &Account, sp: &Account) -> (r: BigNat)
    ensures
        r@ == allow_of(v@, o@, sp@),
{
    let n = v.len();
    proof {
        assert(v@.subrange(0, n as int) =~= v@);
    }
    let mut i: usize = 0;
    while i < n
        invariant
            i <= n,
            n == v@.len(),
            forall|j: int| 0 <= j < i ==> !(v@[j].0@ == o@ && v@[j].1@ == sp@),
            allow_of(v@, o@, sp@) == allow_of(v@.subrange(i as int, n as int), o@, sp@),
        decreases n - i,
    {
        if v[i].0.same_account(o) && v[i].1.same_account(sp) {
            proof {
                let suffix = v@.subrange(i as int, n as int);
                assert(suffix[0] == v@[i as int]);
            }
            return v[i].2.clone();
        }
        proof {
            let suffix = v@.subrange(i as int, n as int);
            assert(suffix[0] == v@[i as int]);
            assert(suffix.subrange(1, suffix.len() as int) =~= v@.subrange(i + 1, n as int));
        }
        i = i + 1;
    }
    proof {
        assert(v@.subrange(n as int, n as int) =~= Seq::<(Account, Account, BigNat)>::empty());
    }
    BigNat::zero()
}

/// Writes `val` as the allowance of `(o, sp)`, inserting an entry if none
/// exists.
pub fn set_allow(v: &mut Vec<(Account, Account, BigNat)>, o: &Account, sp: &Account, val: BigNat)
    requires
        allow_keys_distinct(old(v)@),
    ensures
        allow_keys_distinct(final(v)@),
        allow_of(final(v)@, o@, sp@) == val@,
        forall|x: AccountV, y: AccountV| #![auto]
            !(x == o@ && y == sp@) ==> allow_of(final(v)@, x, y) == allow_of(old(v)@, x, y),
{
    let n = v.len();
    let mut i: usize = 0;
    while i < n
        invariant
            i <= n,
            n == v@.len(),
            v@ == old(v)@,
            allow_keys_distinct(v@),
            forall|j: int| 0 <= j < i ==> !(v@[j].0@ == o@ && v@[j].1@ == sp@),
        decreases n - i,
    {
        if v[i].0.same_account(o) && v[i].1.same_account(sp) {
            let entry = (o.clone(), sp.clone(), val);
            proof {
                lemma_allow_distinct_update(v@, i as int, entry);
                lemma_allow_update_point(v@, i as int, entry, o@, sp@);
            }
            let ghost pre = v@;
            v.set(i, entry);
            proof {
                assert forall|x: AccountV, y: AccountV| #![auto]
                    !(x == o@ && y == sp@) implies allow_of(v@, x, y) == allow_of(
                    old(v)@,
                    x,
                    y,
                ) by {
                    lemma_allow_update_point(pre, i as int, entry, x, y);
                }
            }
            return ;
        }
        i = i + 1;
    }
    let entry = (o.clone(), sp.clone(), val);
    proof {
        assert(!allow_has_key(v@, o@, sp@));
        lemma_allow_distinct_push(v@, entry);
        lemma_allow_push_point(v@, entry, o@, sp@);
    }
    let ghost pre = v@;
    v.push(entry);
    proof {
        assert forall|x: AccountV, y: AccountV| #![auto]
            !(x == o@ && y == sp@) implies allow_of(v@, x, y) == allow_of(old(v)@, x, y) by {
            lemma_allow_push_point(pre, entry, x, y);
        }
    }
}

/// Reads the balance of `a` out of the table.
pub fn get_bal(v: &Vec<(Account, BigNat)>, a: &Account) -> (r: BigNat)
    ensures
        r@ == bal_of(v@, a@),
{
    let n = v.len();
    proof {
        assert(v@.subrange(0, n as int) =~= v@);
    }
    let mut i: usize = 0;
    while i < n
        invariant
            i <= n,
            n == v@.len(),
            forall|j: int| 0 <= j < i ==> v@[j].0@ != a@,
            bal_of(v@, a@) == bal_of(v@.subrange(i as int, n as int), a@),
        decreases n - i,
    {
        if v[i].0.same_account(a) {
            proof {
                let suffix = v@.subrange(i as int, n as int);
                assert(suffix[0] == v@[i as int]);
            }
            return v[i].1.clone();
        }
        proof {
            let suffix = v@.subrange(i as int, n as int);
            assert(suffix[0] == v@[i as int]);
            assert(suffix.subrange(1, suffix.len() as int) =~= v@.subrange(
                i + 1,
                n as int,
            ));
        }
        i = i + 1;
    }
    proof {
        assert(v@.subrange(n as int, n as int) =~= Seq::<(Account, BigNat)>::empty());
    }
    BigNat::zero()
}

/// Writes `val` as the balance of `a`, inserting an entry if none exists.
pub fn set_bal(v: &mut Vec<(Account, BigNat)>, a: &Account, val: BigNat)
    requires
        bal_keys_distinct(old(v)@),
    ensures
        bal_keys_distinct(final(v)@),
        bal_of(final(v)@, a@) == val@,
        forall|x: AccountV| #![auto] x != a@ ==> bal_of(final(v)@, x) == bal_of(old(v)@, x),
        sum_bal(final(v)@) == sum_bal(old(v)@) - bal_of(old(v)@, a@) + val@,
        bal_has_key(final(v)@, a@),
        forall|x: AccountV| #![auto] bal_has_key(old(v)@, x) ==> bal_has_key(final(v)@, x),
{
    let n = v.len();
    let mut i: usize = 0;
    while i < n
        invariant
            i <= n,
            n == v@.len(),
            v@ == old(v)@,
            bal_keys_distinct(v@),
            forall|j: int| 0 <= j < i ==> v@[j].0@ != a@,
        decreases n - i,
    {
        if v[i].0.same_account(a) {
            let entry = (a.clone(), val);
            proof {
                lemma_bal_found(v@, i as int);
                lemma_sum_update(v@, i as int, entry);
                lemma_distinct_update(v@, i as int, entry);
                lemma_bal_update_point(v@, i as int, entry, a@);
            }
            let ghost pre = v@;
            v.set(i, entry);
            proof {
                assert forall|x: AccountV| #![auto]
                    x != a@ implies bal_of(v@, x) == bal_of(old(v)@, x) by {
                    lemma_bal_update_point(pre, i as int, entry, x);
                }
                assert(bal_has_key(v@, a@)) by {
                    assert(v@[i as int].0@ == a@);
                }
                assert forall|x: AccountV| #![auto]
                    bal_has_key(old(v)@, x) implies bal_has_key(v@, x) by {
                    let k = choose|k: int| 0 <= k < pre.len() && pre[k].0@ == x;
                    assert(v@[k].0@ == x);
                }
            }
            return ;
        }
        i = i + 1;
    }
    let entry = (a.clone(), val);
    proof {
        assert(!bal_has_key(v@, a@));
        lemma_bal_absent(v@, a@);
        lemma_sum_push(v@, entry);
        lemma_distinct_push(v@, entry);
        lemma_bal_push_point(v@, entry, a@);
    }
    let ghost pre = v@;
    v.push(entry);
    proof {
        assert forall|x: AccountV| #![auto]
            x != a@ implies bal_of(v@, x) == bal_of(old(v)@, x) by {
            lemma_bal_push_point(pre, entry, x);
        }
        assert(bal_has_key(v@, a@)) by {
            assert(v@[v@.len() - 1].0@ == a@);
        }
        assert forall|x: AccountV| #![auto]
            bal_has_key(old(v)@, x) implies bal_has_key(v@, x) by {
            let k = choose|k: int| 0 <= k < pre.len() && pre[k].0@ == x;
            assert(v@[k].0@ == x);
        }
    }
}

} // verus!
