use vstd::prelude::*;

verus! {

/// One address of the ledger: its sub-unit balance and whether it is exempt
/// from token synchronisation.
#[derive(Debug)]
pub struct Account {
    pub address: String,
    pub balance: u128,
    pub exempt: bool,
}

/// The entry for address `a`, if any (the last one wins; entries are unique
/// in a well-formed ledger).
pub open spec fn lookup(s: Seq<Account>, a: Seq<char>) -> Option<Account>
    decreases s.len(),
{
    if s.len() == 0 {
        None
    } else if s.last().address@ == a {
        Some(s.last())
    } else {
        lookup(s.drop_last(), a)
    }
}

/// The balance of `a`; an address without an entry holds zero.
pub open spec fn balance_of(s: Seq<Account>, a: Seq<char>) -> nat {
    match lookup(s, a) {
        Some(x) => x.balance as nat,
        None => 0,
    }
}

/// Whether `a` is transfer-exempt; an address without an entry is not.
pub open spec fn exempt_of(s: Seq<Account>, a: Seq<char>) -> bool {
    match lookup(s, a) {
        Some(x) => x.exempt,
        None => false,
    }
}

/// How many tokens an account is entitled to: its whole units, or none when exempt.
pub open spec fn entitlement(x: Account, units: nat) -> nat {
    if x.exempt {
        0
    } else {
        x.balance as nat / units
    }
}

pub open spec fn entitlement_of(s: Seq<Account>, a: Seq<char>, units: nat) -> nat {
    match lookup(s, a) {
        Some(x) => entitlement(x, units),
        None => 0,
    }
}

pub open spec fn sum_balances(s: Seq<Account>) -> nat
    decreases s.len(),
{
    if s.len() == 0 {
        0
    } else {
        sum_balances(s.drop_last()) + s.last().balance as nat
    }
}

pub open spec fn sum_entitlements(s: Seq<Account>, units: nat) -> nat
    decreases s.len(),
{
    if s.len() == 0 {
        0
    } else {
        sum_entitlements(s.drop_last(), units) + entitlement(s.last(), units)
    }
}

/// No address has two entries.
pub open spec fn unique_addresses(s: Seq<Account>) -> bool {
    forall|i: int, j: int|
        0 <= i < s.len() && 0 <= j < s.len() && i != j ==> s[i].address@ != s[j].address@
}

/// The addresses of the ledger, in order.
pub open spec fn addresses(s: Seq<Account>) -> Seq<Seq<char>> {
    s.map_values(|x: Account| x.address@)
}

/// The sum of `f` over a list of addresses.
pub open spec fn sum_over(addrs: Seq<Seq<char>>, f: spec_fn(Seq<char>) -> nat) -> nat
    decreases addrs.len(),
{
    if addrs.len() == 0 {
        0
    } else {
        sum_over(addrs.drop_last(), f) + f(addrs.last())
    }
}

/// Changing `f` at `x` and `y` only changes the sum by the changes at those
/// of them that are listed, each once.
pub proof fn lemma_sum_over_change(
    addrs: Seq<Seq<char>>,
    f: spec_fn(Seq<char>) -> nat,
    g: spec_fn(Seq<char>) -> nat,
    x: Seq<char>,
    y: Seq<char>,
)
    requires
        addrs.no_duplicates(),
        x != y,
        forall|a: Seq<char>| a != x && a != y ==> #[trigger] g(a) == f(a),
    ensures
        sum_over(addrs, g) == sum_over(addrs, f) + (if addrs.contains(x) {
            g(x) - f(x)
        } else {
            0int
        }) + (if addrs.contains(y) {
            g(y) - f(y)
        } else {
            0int
        }),
    decreases addrs.len(),
{
    if addrs.len() > 0 {
        let p = addrs.drop_last();
        let l = addrs.last();
        assert(p.no_duplicates());
        lemma_sum_over_change(p, f, g, x, y);
        assert forall|a: Seq<char>| #[trigger] addrs.contains(a) <==> p.contains(a) || a == l by {
            if addrs.contains(a) {
                let k = choose|k: int| 0 <= k < addrs.len() && addrs[k] == a;
                if k < p.len() {
                    assert(p[k] == a);
                }
            }
            if p.contains(a) {
                let k = choose|k: int| 0 <= k < p.len() && p[k] == a;
                assert(addrs[k] == a);
            }
            if a == l {
                assert(addrs[addrs.len() - 1] == a);
            }
        }
        assert(!p.contains(l)) by {
            if p.contains(l) {
                let k = choose|k: int| 0 <= k < p.len() && p[k] == l;
                assert(addrs[k] == addrs[addrs.len() - 1]);
            }
        }
    }
}

/// A function that is zero everywhere sums to zero.
pub proof fn lemma_sum_over_zero(addrs: Seq<Seq<char>>, f: spec_fn(Seq<char>) -> nat)
    requires
        forall|a: Seq<char>| #[trigger] f(a) == 0,
    ensures
        sum_over(addrs, f) == 0,
    decreases addrs.len(),
{
    if addrs.len() > 0 {
        lemma_sum_over_zero(addrs.drop_last(), f);
    }
}

/// When `f` stays within each account's entitlement, its sum over the
/// accounts stays within their summed entitlements.
pub proof fn lemma_sum_over_bound(s: Seq<Account>, f: spec_fn(Seq<char>) -> nat, u: nat)
    requires
        forall|i: int| 0 <= i < s.len() ==> f((#[trigger] s[i]).address@) <= entitlement(s[i], u),
    ensures
        sum_over(addresses(s), f) <= sum_entitlements(s, u),
    decreases s.len(),
{
    if s.len() > 0 {
        assert(addresses(s).drop_last() =~= addresses(s.drop_last()));
        assert(s.last() == s[s.len() - 1]);
        lemma_sum_over_bound(s.drop_last(), f, u);
    }
}

pub proof fn lemma_listed(s: Seq<Account>, a: Seq<char>)
    requires
        lookup(s, a) is Some,
    ensures
        addresses(s).contains(a),
{
    lemma_lookup_found(s, a);
    let k = choose|k: int| 0 <= k < s.len() && s[k] == lookup(s, a)->Some_0 && (#[trigger] s[k]).address@ == a;
    assert(addresses(s)[k] == a);
}

pub proof fn lemma_addresses_unique(s: Seq<Account>)
    requires
        unique_addresses(s),
    ensures
        addresses(s).no_duplicates(),
        forall|i: int| 0 <= i < s.len() ==> addresses(s).contains(#[trigger] s[i].address@),
{
    assert forall|i: int| 0 <= i < s.len() implies addresses(s).contains(#[trigger] s[i].address@) by {
        assert(addresses(s)[i] == s[i].address@);
    }
}

/// An account's entitlement read through its address.
pub proof fn lemma_entitlement_of(s: Seq<Account>, a: Seq<char>, u: nat)
    requires
        u > 0,
    ensures
        entitlement_of(s, a, u) == if exempt_of(s, a) {
            0
        } else {
            balance_of(s, a) / u
        },
{
    assert(0nat / u == 0);
}

pub proof fn lemma_lookup_found(s: Seq<Account>, a: Seq<char>)
    ensures
        lookup(s, a) matches Some(x) ==> exists|k: int|
            0 <= k < s.len() && s[k] == x && (#[trigger] s[k]).address@ == a,
    decreases s.len(),
{
    if s.len() > 0 && s.last().address@ != a {
        lemma_lookup_found(s.drop_last(), a);
        if lookup(s, a) is Some {
            let k = choose|k: int|
                0 <= k < s.drop_last().len() && s.drop_last()[k] == lookup(s, a)->Some_0 && (
                #[trigger] s.drop_last()[k]).address@ == a;
            assert(s[k] == s.drop_last()[k]);
        }
    } else if s.len() > 0 {
        assert(s[s.len() - 1] == s.last());
    }
}

pub proof fn lemma_lookup_absent(s: Seq<Account>, a: Seq<char>)
    requires
        forall|j: int| 0 <= j < s.len() ==> (#[trigger] s[j]).address@ != a,
    ensures
        lookup(s, a) is None,
    decreases s.len(),
{
    if s.len() > 0 {
        lemma_lookup_absent(s.drop_last(), a);
    }
}

pub proof fn lemma_lookup_at(s: Seq<Account>, i: int)
    requires
        unique_addresses(s),
        0 <= i < s.len(),
    ensures
        lookup(s, s[i].address@) == Some(s[i]),
    decreases s.len(),
{
    if i < s.len() - 1 {
        assert(s.last() == s[s.len() - 1]);
        lemma_lookup_at(s.drop_last(), i);
    }
}

pub proof fn lemma_lookup_update(s: Seq<Account>, i: int, x: Account)
    requires
        unique_addresses(s),
        0 <= i < s.len(),
        x.address@ == s[i].address@,
    ensures
        unique_addresses(s.update(i, x)),
        forall|a: Seq<char>|
            #![trigger lookup(s.update(i, x), a)]
            lookup(s.update(i, x), a) == if a == x.address@ {
                Some(x)
            } else {
                lookup(s, a)
            },
    decreases s.len(),
{
    let t = s.update(i, x);
    assert(unique_addresses(t)) by {
        assert forall|p: int, q: int|
            0 <= p < t.len() && 0 <= q < t.len() && p != q implies t[p].address@ != t[q].address@ by {
            assert(s[p].address@ != s[q].address@);
        }
    }
    if i == s.len() - 1 {
        assert(t.drop_last() =~= s.drop_last());
        assert forall|a: Seq<char>| a != x.address@ implies #[trigger] lookup(t, a) == lookup(s, a) by {}
        assert(lookup(t, x.address@) == Some(x));
    } else {
        assert(t.drop_last() =~= s.drop_last().update(i, x));
        assert(unique_addresses(s.drop_last()));
        lemma_lookup_update(s.drop_last(), i, x);
        assert(s.last().address@ != x.address@);
        assert forall|a: Seq<char>|
            #![trigger lookup(t, a)]
            lookup(t, a) == if a == x.address@ {
                Some(x)
            } else {
                lookup(s, a)
            } by {
            assert(lookup(t.drop_last(), a) == lookup(s.drop_last().update(i, x), a));
        }
    }
}

pub proof fn lemma_push_fresh(s: Seq<Account>, x: Account)
    requires
        unique_addresses(s),
        lookup(s, x.address@) is None,
    ensures
        unique_addresses(s.push(x)),
        forall|a: Seq<char>|
            #![trigger lookup(s.push(x), a)]
            lookup(s.push(x), a) == if a == x.address@ {
                Some(x)
            } else {
                lookup(s, a)
            },
        sum_balances(s.push(x)) == sum_balances(s) + x.balance,
        forall|u: nat| #[trigger]
            sum_entitlements(s.push(x), u) == sum_entitlements(s, u) + entitlement(x, u),
{
    let t = s.push(x);
    assert(t.drop_last() =~= s);
    assert forall|p: int, q: int|
        0 <= p < t.len() && 0 <= q < t.len() && p != q implies t[p].address@ != t[q].address@ by {
        if p == s.len() {
            lemma_lookup_at(s, q);
        } else if q == s.len() {
            lemma_lookup_at(s, p);
        }
    }
}

pub proof fn lemma_sums_update(s: Seq<Account>, i: int, x: Account, u: nat)
    requires
        0 <= i < s.len(),
    ensures
        sum_balances(s.update(i, x)) + s[i].balance == sum_balances(s) + x.balance,
        sum_entitlements(s.update(i, x), u) + entitlement(s[i], u) == sum_entitlements(s, u)
            + entitlement(x, u),
    decreases s.len(),
{
    let t = s.update(i, x);
    if i == s.len() - 1 {
        assert(t.drop_last() =~= s.drop_last());
    } else {
        assert(t.drop_last() =~= s.drop_last().update(i, x));
        lemma_sums_update(s.drop_last(), i, x, u);
    }
}

pub proof fn lemma_entry_within_sum(s: Seq<Account>, i: int)
    requires
        0 <= i < s.len(),
    ensures
        s[i].balance <= sum_balances(s),
    decreases s.len(),
{
    if i < s.len() - 1 {
        lemma_entry_within_sum(s.drop_last(), i);
    }
}

/// The whole units of the accounts never exceed the whole units of their total.
pub proof fn lemma_entitlements_bound(s: Seq<Account>, u: nat)
    requires
        u > 0,
    ensures
        sum_entitlements(s, u) * u <= sum_balances(s),
    decreases s.len(),
{
    if s.len() > 0 {
        lemma_entitlements_bound(s.drop_last(), u);
        let b = s.last().balance as nat;
        assert((b / u) * u <= b) by (nonlinear_arith)
            requires
                u > 0,
        ;
        let e = entitlement(s.last(), u);
        let r = sum_entitlements(s.drop_last(), u);
        if s.last().exempt {
            assert(e == 0);
            assert(e * u == 0) by (nonlinear_arith)
                requires
                    e == 0,
            ;
        } else {
            assert(e == b / u);
        }
        assert(e * u <= b);
        assert(sum_entitlements(s, u) == r + e);
        assert((r + e) * u == r * u + e * u) by (nonlinear_arith);
        assert(sum_entitlements(s, u) * u == (r + e) * u);
        assert(sum_balances(s) == sum_balances(s.drop_last()) + b);
    } else {
        assert(sum_entitlements(s, u) == 0);
        assert(0 * u == 0);
    }
}

/// The accounts of the ledger, one entry per address.
pub struct Ledger {
    pub accounts: Vec<Account>,
}

impl Ledger {
    pub open spec fn wf(&self) -> bool {
        unique_addresses(self.accounts@)
    }

    pub open spec fn balance_view(&self, a: Seq<char>) -> nat {
        balance_of(self.accounts@, a)
    }

    pub open spec fn exempt_view(&self, a: Seq<char>) -> bool {
        exempt_of(self.accounts@, a)
    }

    /// The position of the entry for `addr`.
    pub fn find(&self, addr: &String) -> (r: Option<usize>)
        requires
            self.wf(),
        ensures
            r matches Some(i) ==> i < self.accounts@.len() && self.accounts@[i as int].address@
                == addr@ && lookup(self.accounts@, addr@) == Some(self.accounts@[i as int]),
            r is None ==> lookup(self.accounts@, addr@) is None,
    {
        let mut i: usize = 0;
        while i < self.accounts.len()
            invariant
                self.wf(),
                i <= self.accounts@.len(),
                forall|j: int| 0 <= j < i ==> (#[trigger] self.accounts@[j]).address@ != addr@,
            decreases self.accounts@.len() - i,
        {
            if self.accounts[i].address == *addr {
                proof {
                    lemma_lookup_at(self.accounts@, i as int);
                }
                return Some(i);
            }
            i = i + 1;
        }
        proof {
            lemma_lookup_absent(self.accounts@, addr@);
        }
        None
    }

    /// The balance of `addr`, zero when it has no entry.
    pub fn balance(&self, addr: &String) -> (r: u128)
        requires
            self.wf(),
        ensures
            r as nat == self.balance_view(addr@),
    {
        match self.find(addr) {
            Some(i) => self.accounts[i].balance,
            None => 0,
        }
    }

    /// Whether `addr` is transfer-exempt; false when it has no entry.
    pub fn is_exempt(&self, addr: &String) -> (r: bool)
        requires
            self.wf(),
        ensures
            r == self.exempt_view(addr@),
    {
        match self.find(addr) {
            Some(i) => self.accounts[i].exempt,
            None => false,
        }
    }

    /// Replaces the balance of the entry at `i`.
    fn set_balance(&mut self, i: usize, v: u128)
        requires
            old(self).wf(),
            i < old(self).accounts@.len(),
        ensures
            final(self).wf(),
            final(self).accounts@.len() == old(self).accounts@.len(),
            addresses(final(self).accounts@) == addresses(old(self).accounts@),
            forall|a: Seq<char>|
                #![trigger lookup(final(self).accounts@, a)]
                lookup(final(self).accounts@, a) == if a == old(self).accounts@[i as int].address@ {
                    Some(
                        Account {
                            address: old(self).accounts@[i as int].address,
                            balance: v,
                            exempt: old(self).accounts@[i as int].exempt,
                        },
                    )
                } else {
                    lookup(old(self).accounts@, a)
                },
            sum_balances(final(self).accounts@) + old(self).accounts@[i as int].balance
                == sum_balances(old(self).accounts@) + v,
            forall|u: nat|
                #![trigger sum_entitlements(final(self).accounts@, u)]
                sum_entitlements(final(self).accounts@, u) + entitlement(
                    old(self).accounts@[i as int],
                    u,
                ) == sum_entitlements(old(self).accounts@, u) + entitlement(
                    Account {
                        address: old(self).accounts@[i as int].address,
                        balance: v,
                        exempt: old(self).accounts@[i as int].exempt,
                    },
                    u,
                ),
    {
        let ghost s0 = self.accounts@;
        let address = self.accounts[i].address.clone();
        let exempt = self.accounts[i].exempt;
        let acc = Account { address, balance: v, exempt };
        proof {
            lemma_lookup_update(s0, i as int, acc);
            assert forall|u: nat| #[trigger]
                sum_entitlements(s0.update(i as int, acc), u) + entitlement(s0[i as int], u)
                    == sum_entitlements(s0, u) + entitlement(acc, u) by {
                lemma_sums_update(s0, i as int, acc, u);
            }
            lemma_sums_update(s0, i as int, acc, 1);
            assert(addresses(s0.update(i as int, acc)) =~= addresses(s0));
        }
        self.accounts.set(i, acc);
    }

    /// The position of the entry for `addr`, adding an empty, non-exempt one
    /// when there is none.
    fn find_or_insert(&mut self, addr: &String) -> (r: usize)
        requires
            old(self).wf(),
        ensures
            final(self).wf(),
            r < final(self).accounts@.len(),
            final(self).accounts@[r as int].address@ == addr@,
            lookup(old(self).accounts@, addr@) is Some ==> addresses(final(self).accounts@)
                == addresses(old(self).accounts@),
            lookup(old(self).accounts@, addr@) is None ==> addresses(final(self).accounts@)
                == addresses(old(self).accounts@).push(addr@),
            forall|a: Seq<char>|
                #![trigger balance_of(final(self).accounts@, a)]
                balance_of(final(self).accounts@, a) == balance_of(old(self).accounts@, a),
            forall|a: Seq<char>|
                #![trigger exempt_of(final(self).accounts@, a)]
                exempt_of(final(self).accounts@, a) == exempt_of(old(self).accounts@, a),
            lookup(final(self).accounts@, addr@) == Some(final(self).accounts@[r as int]),
            forall|a: Seq<char>|
                a != addr@ ==> #[trigger] lookup(final(self).accounts@, a) == lookup(
                    old(self).accounts@,
                    a,
                ),
            sum_balances(final(self).accounts@) == sum_balances(old(self).accounts@),
            forall|u: nat|
                u > 0 ==> #[trigger] sum_entitlements(final(self).accounts@, u) == sum_entitlements(
                    old(self).accounts@,
                    u,
                ),
    {
        match self.find(addr) {
            Some(i) => i,
            None => {
                let acc = Account { address: addr.clone(), balance: 0, exempt: false };
                proof {
                    lemma_push_fresh(self.accounts@, acc);
                    assert forall|u: nat| u > 0 implies #[trigger] entitlement(acc, u) == 0 by {
                        assert(0nat / u == 0);
                    }
                }
                let n = self.accounts.len();
                let ghost s0 = self.accounts@;
                self.accounts.push(acc);
                proof {
                    lemma_lookup_at(self.accounts@, n as int);
                    assert(addresses(s0.push(acc)) =~= addresses(s0).push(addr@));
                }
                n
            },
        }
    }

    /// Appends an entry for an address that has none.
    pub fn push_account(&mut self, acc: Account)
        requires
            old(self).wf(),
            lookup(old(self).accounts@, acc.address@) is None,
        ensures
            final(self).wf(),
            final(self).accounts@ == old(self).accounts@.push(acc),
            addresses(final(self).accounts@) == addresses(old(self).accounts@).push(acc.address@),
    {
        proof {
            lemma_push_fresh(self.accounts@, acc);
            assert(addresses(self.accounts@.push(acc)) =~= addresses(self.accounts@).push(
                acc.address@,
            ));
        }
        self.accounts.push(acc);
    }

    /// Moves `amount` from `from` to a different address `to`.
    pub fn move_balance(&mut self, from: &String, to: &String, amount: u128)
        requires
            old(self).wf(),
            from@ != to@,
            old(self).balance_view(from@) >= amount,
            sum_balances(old(self).accounts@) <= u128::MAX,
        ensures
            final(self).wf(),
            forall|a: Seq<char>|
                #![trigger final(self).balance_view(a)]
                final(self).balance_view(a) == if a == from@ {
                    old(self).balance_view(a) - amount
                } else if a == to@ {
                    old(self).balance_view(a) + amount
                } else {
                    old(self).balance_view(a) as int
                },
            forall|a: Seq<char>|
                #![trigger final(self).exempt_view(a)]
                final(self).exempt_view(a) == old(self).exempt_view(a),
            sum_balances(final(self).accounts@) == sum_balances(old(self).accounts@),
            lookup(final(self).accounts@, from@) is Some,
            lookup(final(self).accounts@, to@) is Some,
            lookup(old(self).accounts@, from@) is Some && lookup(old(self).accounts@, to@) is Some
                ==> addresses(final(self).accounts@) == addresses(old(self).accounts@),
            lookup(old(self).accounts@, from@) is Some && lookup(old(self).accounts@, to@) is None
                ==> addresses(final(self).accounts@) == addresses(old(self).accounts@).push(to@),
            forall|u: nat|
                u > 0 ==> #[trigger] sum_entitlements(final(self).accounts@, u) + entitlement_of(
                    old(self).accounts@,
                    from@,
                    u,
                ) + entitlement_of(old(self).accounts@, to@, u) == sum_entitlements(
                    old(self).accounts@,
                    u,
                ) + entitlement_of(final(self).accounts@, from@, u) + entitlement_of(
                    final(self).accounts@,
                    to@,
                    u,
                ),
    {
        let ghost s0 = self.accounts@;
        let i = self.find_or_insert(from);
        let ghost s1 = self.accounts@;
        let bi = self.accounts[i].balance;
        assert(balance_of(s1, from@) == bi as nat);
        self.set_balance(i, bi - amount);
        let ghost s2 = self.accounts@;
        proof {
            lemma_entry_within_sum(s2, 0);
        }
        let j = self.find_or_insert(to);
        let ghost s3 = self.accounts@;
        let bj = self.accounts[j].balance;
        proof {
            lemma_entry_within_sum(s3, j as int);
        }
        self.set_balance(j, bj + amount);
        proof {
            let s4 = self.accounts@;
            assert forall|u: nat| u > 0 implies #[trigger]
                sum_entitlements(s4, u) + entitlement_of(s0, from@, u) + entitlement_of(s0, to@, u)
                    == sum_entitlements(s0, u) + entitlement_of(s4, from@, u) + entitlement_of(
                    s4,
                    to@,
                    u,
                ) by {
                lemma_entitlement_of(s0, from@, u);
                lemma_entitlement_of(s1, from@, u);
                lemma_entitlement_of(s0, to@, u);
                lemma_entitlement_of(s3, to@, u);
                lemma_entitlement_of(s2, to@, u);
            }
            assert forall|a: Seq<char>| #[trigger]
                self.balance_view(a) == if a == from@ {
                    old(self).balance_view(a) - amount
                } else if a == to@ {
                    old(self).balance_view(a) + amount
                } else {
                    old(self).balance_view(a) as int
                } by {
                assert(balance_of(s3, a) == balance_of(s2, a));
                assert(balance_of(s1, a) == balance_of(s0, a));
            }
            assert forall|a: Seq<char>| #[trigger]
                self.exempt_view(a) == old(self).exempt_view(a) by {
                assert(exempt_of(s3, a) == exempt_of(s2, a));
                assert(exempt_of(s1, a) == exempt_of(s0, a));
            }
        }
    }
}

} // verus!
