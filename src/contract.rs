use vstd::prelude::*;

use crate::error::ContractError;
use crate::ledger::{
    addresses, entitlement_of, lemma_addresses_unique, lemma_entitlement_of,
    lemma_entitlements_bound, lemma_lookup_absent, lemma_lookup_at, lemma_lookup_found,
    lemma_push_fresh, lemma_sum_over_bound, lemma_sum_over_change, lemma_sum_over_zero, lookup, sum_balances, sum_entitlements, sum_over, unique_addresses,
    Account, Ledger,
};
use crate::msg::{Cw20Coin, ExecuteMsg, InstantiateMsg};
use crate::registry::{
    assigned_id, held_by, live_count, minted_by_assign, owned_count, owned_fn, pool_after_assign, NftInfo,
    TokenRegistry,
};
use crate::units::{
    lemma_whole_units_bound, lemma_whole_units_split, pow10, units_for_decimals,
};

verus! {

/// The token's metadata, fixed at instantiation.
#[derive(Debug)]
pub struct TokenInfo {
    pub name: String,
    pub symbol: String,
    pub decimals: u8,
    pub total_supply: u128,
    pub admin: String,
    /// Sub-units per whole unit: `10^decimals`.
    pub units: u128,
    pub base_token_uri: Option<String>,
}

/// The whole persisted state of one contract instance.
pub struct ContractState {
    pub token_info: TokenInfo,
    /// `total_supply / units`: the ceiling on tokens owned at once.
    pub max_nft_supply: u128,
    pub ledger: Ledger,
    pub registry: TokenRegistry,
}

/// What a transfer did: the fungible move and the token identifiers it
/// handed over, withdrew into the pool, and assigned to the recipient.
#[derive(Debug)]
pub struct TransferResponse {
    pub from: String,
    pub to: String,
    pub amount: u128,
    pub moved: Vec<u128>,
    pub reclaimed: Vec<u128>,
    pub assigned: Vec<u128>,
}

impl ContractState {
    pub open spec fn units(&self) -> nat {
        self.token_info.units as nat
    }

    pub open spec fn balance_view(&self, a: Seq<char>) -> nat {
        self.ledger.balance_view(a)
    }

    pub open spec fn exempt_view(&self, a: Seq<char>) -> bool {
        self.ledger.exempt_view(a)
    }

    /// Tokens minted so far less those waiting in the pool.
    pub open spec fn outstanding(&self) -> int {
        self.registry.nft_count - self.registry.pool@.len()
    }

    pub open spec fn wf(&self) -> bool {
        &&& self.ledger.wf()
        &&& self.registry.wf()
        &&& self.token_info.units >= 1
        &&& sum_balances(self.ledger.accounts@) == self.token_info.total_supply
        &&& self.max_nft_supply == self.token_info.total_supply / self.token_info.units
        &&& self.max_nft_supply < u64::MAX
        &&& forall|a: Seq<char>|
            #![trigger owned_count(self.registry.nfts@, a)]
            owned_count(self.registry.nfts@, a) <= entitlement_of(
                self.ledger.accounts@,
                a,
                self.units(),
            )
        &&& live_count(self.registry.nfts@) == sum_over(
            addresses(self.ledger.accounts@),
            owned_fn(self.registry.nfts@),
        )
    }
}

/// No two initial balances name the same address.
pub open spec fn distinct_coins(s: Seq<Cw20Coin>) -> bool {
    forall|i: int, j: int|
        0 <= i < s.len() && 0 <= j < s.len() && i != j ==> s[i].address@ != s[j].address@
}

/// The sum of the initial balances, in whole units.
pub open spec fn total_amount(s: Seq<Cw20Coin>) -> nat
    decreases s.len(),
{
    if s.len() == 0 {
        0
    } else {
        total_amount(s.drop_last()) + s.last().amount as nat
    }
}

proof fn lemma_total_amount_prefix(s: Seq<Cw20Coin>, i: int)
    requires
        0 <= i <= s.len(),
    ensures
        total_amount(s.take(i)) <= total_amount(s),
    decreases s.len() - i,
{
    if i < s.len() {
        lemma_total_amount_prefix(s, i + 1);
        assert(s.take(i + 1).drop_last() =~= s.take(i));
    } else {
        assert(s.take(i) =~= s);
    }
}

/// Fails with `DuplicateInitialBalanceses` when two entries share an address.
pub fn validate_accounts(accounts: &Vec<Cw20Coin>) -> (r: Result<(), ContractError>)
    ensures
        r is Ok <==> distinct_coins(accounts@),
        r is Err ==> r == Err::<(), ContractError>(ContractError::DuplicateInitialBalanceses),
{
    let n = accounts.len();
    let mut i: usize = 0;
    while i < n
        invariant
            n == accounts@.len(),
            i <= n,
            forall|p: int, q: int|
                0 <= p < i && 0 <= q < n && p != q ==> accounts@[p].address@
                    != accounts@[q].address@,
        decreases n - i,
    {
        let mut j: usize = 0;
        while j < n
            invariant
                n == accounts@.len(),
                i < n,
                j <= n,
                forall|p: int, q: int|
                    0 <= p < i && 0 <= q < n && p != q ==> accounts@[p].address@
                        != accounts@[q].address@,
                forall|q: int|
                    0 <= q < j && q != i ==> accounts@[i as int].address@ != accounts@[q].address@,
            decreases n - j,
        {
            if j != i && accounts[i].address == accounts[j].address {
                return Err(ContractError::DuplicateInitialBalanceses);
            }
            j = j + 1;
        }
        i = i + 1;
    }
    Ok(())
}

/// Whether the initial balances fit: their whole units must stay below the
/// range of the token counter.
pub open spec fn coins_fit(s: Seq<Cw20Coin>) -> bool {
    total_amount(s) < u64::MAX
}

/// Opens the ledger from the initial balances, each scaled by `units`, and
/// marks `admin` exempt. Returns the ledger and the total supply.
pub fn create_accounts(
    accounts: &Vec<Cw20Coin>,
    units: u128,
    admin: &String,
) -> (r: Result<(Ledger, u128), ContractError>)
    requires
        1 <= units <= 1_000_000_000_000_000_000u128,
    ensures
        !distinct_coins(accounts@) ==> r == Err::<(Ledger, u128), ContractError>(
            ContractError::DuplicateInitialBalanceses,
        ),
        distinct_coins(accounts@) && !coins_fit(accounts@) ==> r == Err::<
            (Ledger, u128),
            ContractError,
        >(ContractError::Overflow),
        distinct_coins(accounts@) && coins_fit(accounts@) ==> r is Ok,
        r matches Ok((ledger, total)) ==> {
            &&& ledger.wf()
            &&& total == total_amount(accounts@) * units
            &&& sum_balances(ledger.accounts@) == total
            &&& forall|i: int|
                0 <= i < accounts@.len() ==> ledger.balance_view(#[trigger] accounts@[i].address@)
                    == accounts@[i].amount * units
            &&& forall|a: Seq<char>|
                (forall|i: int| 0 <= i < accounts@.len() ==> a != (#[trigger] accounts@[i]).address@)
                    ==> ledger.balance_view(a) == 0
            &&& forall|a: Seq<char>| #[trigger] ledger.exempt_view(a) <==> a == admin@
        },
{
    validate_accounts(accounts)?;
    let n = accounts.len();
    let mut ledger = Ledger { accounts: Vec::new() };
    let mut sum: u128 = 0;
    let ghost u = units as nat;
    let mut i: usize = 0;
    while i < n
        invariant
            n == accounts@.len(),
            distinct_coins(accounts@),
            1 <= units <= 1_000_000_000_000_000_000u128,
            u == units as nat,
            i <= n,
            ledger.wf(),
            ledger.accounts@.len() == i,
            sum == total_amount(accounts@.take(i as int)),
            sum < u64::MAX,
            sum_balances(ledger.accounts@) == sum * units,
            forall|j: int|
                #![trigger ledger.accounts@[j]]
                0 <= j < i ==> ledger.accounts@[j].address@ == accounts@[j].address@
                    && ledger.accounts@[j].balance == accounts@[j].amount * units
                    && ledger.accounts@[j].exempt == (accounts@[j].address@ == admin@),
        decreases n - i,
    {
        let coin = &accounts[i];
        let amount = coin.amount;
        proof {
            assert(accounts@.take(i + 1).drop_last() =~= accounts@.take(i as int));
        }
        if amount >= (u64::MAX as u128) - sum {
            proof {
                lemma_total_amount_prefix(accounts@, i + 1);
            }
            return Err(ContractError::Overflow);
        }
        assert(amount * units <= 18_446_744_073_709_551_615u128 * 1_000_000_000_000_000_000u128)
            by (nonlinear_arith)
            requires
                amount < 18_446_744_073_709_551_615u128,
                units <= 1_000_000_000_000_000_000u128,
        ;
        let balance = amount * units;
        let exempt = coin.address == *admin;
        let acc = Account { address: coin.address.clone(), balance, exempt };
        let ghost s0 = ledger.accounts@;
        proof {
            assert forall|j: int| 0 <= j < s0.len() implies (#[trigger] s0[j]).address@
                != acc.address@ by {
                assert(ledger.accounts@[j].address@ == accounts@[j].address@);
            }
            lemma_lookup_absent(s0, acc.address@);
            lemma_push_fresh(s0, acc);
            assert(sum * units + amount * units == (sum + amount) * units) by (nonlinear_arith);
        }
        ledger.push_account(acc);
        sum = sum + amount;
        i = i + 1;
    }
    proof {
        assert(accounts@.take(n as int) =~= accounts@);
    }
    let admin_entry = ledger.find(admin);
    if admin_entry.is_none() {
        let acc = Account { address: admin.clone(), balance: 0, exempt: true };
        let ghost s0 = ledger.accounts@;
        proof {
            lemma_push_fresh(s0, acc);
        }
        ledger.push_account(acc);
    }
    assert(sum * units <= 18_446_744_073_709_551_615u128 * 1_000_000_000_000_000_000u128)
        by (nonlinear_arith)
        requires
            sum < 18_446_744_073_709_551_615u128,
            units <= 1_000_000_000_000_000_000u128,
    ;
    let total = sum * units;
    proof {
        let s = ledger.accounts@;
        assert forall|i: int| 0 <= i < accounts@.len() implies ledger.balance_view(
            #[trigger] accounts@[i].address@,
        ) == accounts@[i].amount * units by {
            lemma_lookup_at(s, i);
        }
        assert forall|a: Seq<char>|
            (forall|i: int| 0 <= i < accounts@.len() ==> a != (#[trigger] accounts@[i]).address@)
                implies ledger.balance_view(a) == 0 by {
            lemma_lookup_found(s, a);
            if lookup(s, a) is Some {
                let k = choose|k: int|
                    0 <= k < s.len() && s[k] == lookup(s, a)->Some_0 && (#[trigger] s[k]).address@
                        == a;
                if k < n {
                    assert(s[k].address@ == accounts@[k].address@);
                }
            }
        }
        assert forall|a: Seq<char>| #[trigger] ledger.exempt_view(a) <==> a == admin@ by {
            lemma_lookup_found(s, a);
            if lookup(s, a) is Some {
                let k = choose|k: int|
                    0 <= k < s.len() && s[k] == lookup(s, a)->Some_0 && (#[trigger] s[k]).address@
                        == a;
                if k < n {
                    assert(s[k].address@ == accounts@[k].address@);
                }
            }
            if a == admin@ {
                match admin_entry {
                    Some(j) => {
                        assert(s[j as int].address@ == accounts@[j as int].address@);
                    },
                    None => {
                        lemma_lookup_at(s, n as int);
                    },
                }
            }
        }
    }
    Ok((ledger, total))
}

/// Tokens owned within each account's entitlement sum to at most the summed
/// entitlements.
proof fn lemma_owned_within_entitlements(s: Seq<Account>, nfts: Seq<Option<NftInfo>>, u: nat)
    requires
        unique_addresses(s),
        forall|a: Seq<char>|
            #![trigger owned_count(nfts, a)]
            owned_count(nfts, a) <= entitlement_of(s, a, u),
    ensures
        sum_over(addresses(s), owned_fn(nfts)) <= sum_entitlements(s, u),
{
    let f = owned_fn(nfts);
    assert forall|i: int| 0 <= i < s.len() implies f((#[trigger] s[i]).address@) <= crate::ledger::entitlement(
        s[i],
        u,
    ) by {
        lemma_lookup_at(s, i);
        assert(owned_count(nfts, s[i].address@) <= entitlement_of(s, s[i].address@, u));
    }
    lemma_sum_over_bound(s, f, u);
}

/// Whole units the sender loses and the recipient gains when `amount` moves
/// between two different addresses with balances `bs` and `br`.
pub open spec fn whole_units_lost(bs: nat, amount: nat, u: nat) -> nat {
    (bs / u - (bs - amount) as nat / u) as nat
}

pub open spec fn whole_units_gained(br: nat, amount: nat, u: nat) -> nat {
    ((br + amount) / u - br / u) as nat
}

/// The smaller of two counts.
pub open spec fn at_most(a: nat, b: nat) -> nat {
    if a <= b {
        a
    } else {
        b
    }
}

/// The balance of `a` after `amount` moves from `s` to `r`.
pub open spec fn balance_after(
    st: ContractState,
    s: Seq<char>,
    r: Seq<char>,
    amount: nat,
    a: Seq<char>,
) -> int {
    if s == r {
        st.balance_view(a) as int
    } else if a == s {
        st.balance_view(a) - amount
    } else if a == r {
        st.balance_view(a) + amount as int
    } else {
        st.balance_view(a) as int
    }
}

/// What a transfer of `amount` from `sender` to `recipient` leaves behind,
/// from state `pre` to state `post`, with result `r`.
pub open spec fn transfer_outcome(
    pre: ContractState,
    post: ContractState,
    sender: Seq<char>,
    recipient: Seq<char>,
    amount: u128,
    r: Result<TransferResponse, ContractError>,
) -> bool {
    &&& (r is Err <==> pre.balance_view(sender) < amount)
    &&& (r is Err ==> r == Err::<TransferResponse, ContractError>(
        ContractError::InsufficientBalance,
    ) && post == pre)
    &&& ((sender == recipient || amount == 0) ==> post == pre)
    &&& (pre.exempt_view(sender) && pre.exempt_view(recipient) ==> post.registry == pre.registry)
    &&& post.token_info == pre.token_info
    &&& sum_balances(post.ledger.accounts@) == sum_balances(pre.ledger.accounts@)
    &&& post.max_nft_supply == pre.max_nft_supply
    &&& forall|a: Seq<char>| #[trigger] post.exempt_view(a) == pre.exempt_view(a)
    &&& (r is Ok ==> forall|a: Seq<char>| #[trigger]
        post.balance_view(a) == balance_after(pre, sender, recipient, amount as nat, a))
    &&& (r matches Ok(resp) ==> {
        let u = pre.units();
        let se = pre.exempt_view(sender);
        let re = pre.exempt_view(recipient);
        let k = amount as nat / u;
        let loss = whole_units_lost(pre.balance_view(sender), amount as nat, u);
        let gain = whole_units_gained(pre.balance_view(recipient), amount as nat, u);
        let held = owned_count(pre.registry.nfts@, sender);
        let m = at_most(k, held);
        let t = at_most(loss, held);
        let pool1 = pre.registry.pool@ + resp.reclaimed@;
        &&& resp.from@ == sender
        &&& resp.to@ == recipient
        &&& resp.amount == amount
        &&& forall|i: int|
            0 <= i < resp.moved@.len() ==> 1 <= #[trigger] resp.moved@[i] <= pre.registry.nfts@.len()
                && held_by(pre.registry.nfts@[resp.moved@[i] - 1], sender) && held_by(
                post.registry.nfts@[resp.moved@[i] - 1],
                recipient,
            )
        &&& forall|i: int|
            0 <= i < resp.reclaimed@.len() ==> 1 <= #[trigger] resp.reclaimed@[i]
                <= pre.registry.nfts@.len() && held_by(
                pre.registry.nfts@[resp.reclaimed@[i] - 1],
                sender,
            )
        &&& forall|i: int|
            0 <= i < resp.assigned@.len() ==> 1 <= #[trigger] resp.assigned@[i]
                <= post.registry.nfts@.len() && held_by(
                post.registry.nfts@[resp.assigned@[i] - 1],
                recipient,
            )
        &&& forall|i: int|
            0 <= i < resp.assigned@.len() ==> #[trigger] resp.assigned@[i] == assigned_id(
                pool1,
                pre.registry.nft_count,
                i,
            )
        &&& post.registry.pool@ == pool_after_assign(pool1, resp.assigned@.len())
        &&& post.registry.nft_count == pre.registry.nft_count + minted_by_assign(
            pool1.len(),
            resp.assigned@.len(),
        )
        &&& post.registry.nfts@.len() >= pre.registry.nfts@.len()
        &&& forall|j: int|
            0 <= j < pre.registry.nfts@.len() && (#[trigger] pre.registry.nfts@[j]) is Some
                && !held_by(pre.registry.nfts@[j], sender) ==> post.registry.nfts@[j]
                == pre.registry.nfts@[j]
        &&& if sender == recipient {
            resp.moved@.len() == 0 && resp.reclaimed@.len() == 0 && resp.assigned@.len() == 0
        } else {
            &&& resp.moved@.len() == (if !se && !re {
                m
            } else {
                0
            })
            &&& resp.reclaimed@.len() == (if se {
                0
            } else if re {
                t
            } else {
                (t - m) as nat
            })
            &&& resp.assigned@.len() == (if re {
                0
            } else if se {
                gain
            } else {
                (gain - m) as nat
            })
        }
    })
}

/// Moves `amount` from `sender` to `recipient` and brings the tokens of both
/// in step with their new whole units. The sender hands over and gives back
/// only tokens it holds (balances opened at instantiation carry none); the
/// recipient receives one token for each whole unit it gains.
#[verifier::rlimit(50)]
pub fn execute_transfer(
    state: &mut ContractState,
    sender: &String,
    recipient: &String,
    amount: u128,
) -> (r: Result<TransferResponse, ContractError>)
    requires
        old(state).wf(),
    ensures
        final(state).wf(),
        transfer_outcome(*old(state), *final(state), sender@, recipient@, amount, r),
{
    let bs = state.ledger.balance(sender);
    if bs < amount {
        return Err(ContractError::InsufficientBalance);
    }
    let mut resp = TransferResponse {
        from: sender.clone(),
        to: recipient.clone(),
        amount,
        moved: Vec::new(),
        reclaimed: Vec::new(),
        assigned: Vec::new(),
    };
    if *sender == *recipient || amount == 0 {
        assert(amount == 0 ==> (bs - amount) as nat == bs as nat);
        assert(state.registry.pool@ + resp.reclaimed@ =~= state.registry.pool@);
        assert(state.registry.pool@.take(state.registry.pool@.len() as int)
            =~= state.registry.pool@);
        return Ok(resp);
    }
    let units = state.token_info.units;
    let br = state.ledger.balance(recipient);
    let sender_before = bs / units;
    let recipient_before = br / units;
    let held = state.registry.tokens_of(sender).len() as u128;
    let ghost s0 = state.ledger.accounts@;
    let ghost n0 = state.registry.nfts@;
    let ghost u = units as nat;
    proof {
        lemma_whole_units_split((bs - amount) as nat, amount as nat, u);
        lemma_whole_units_split(br as nat, amount as nat, u);
        lemma_entitlement_of(s0, sender@, u);
        lemma_entitlement_of(s0, recipient@, u);
        assert(owned_count(n0, sender@) <= entitlement_of(s0, sender@, u));
        assert(owned_count(n0, recipient@) <= entitlement_of(s0, recipient@, u));
    }
    state.ledger.move_balance(sender, recipient, amount);
    let ghost s1 = state.ledger.accounts@;
    let sender_after = state.ledger.balance(sender) / units;
    let recipient_after = state.ledger.balance(recipient) / units;
    let sender_exempt = state.ledger.is_exempt(sender);
    let recipient_exempt = state.ledger.is_exempt(recipient);
    proof {
        lemma_entitlement_of(s1, sender@, u);
        lemma_entitlement_of(s1, recipient@, u);
        assert forall|a: Seq<char>| a != sender@ && a != recipient@ implies owned_count(n0, a)
            <= entitlement_of(s1, a, u) by {
            assert(state.ledger.balance_view(a) == old(state).ledger.balance_view(a));
            assert(state.ledger.exempt_view(a) == old(state).ledger.exempt_view(a));
            assert(owned_count(n0, a) <= entitlement_of(s0, a, u));
            lemma_entitlement_of(s0, a, u);
            lemma_entitlement_of(s1, a, u);
        }
        lemma_listing(s0, s1, n0, sender@, recipient@);
        crate::ledger::lemma_listed(s1, sender@);
        crate::ledger::lemma_listed(s1, recipient@);
    }
    let mut moved: u128 = 0;
    let mut taken: u128 = 0;
    let mut given: u128 = 0;
    if sender_exempt && recipient_exempt {
    } else if sender_exempt {
        given = recipient_after - recipient_before;
    } else if recipient_exempt {
        let loss = sender_before - sender_after;
        taken = if loss <= held {
            loss
        } else {
            held
        };
    } else {
        let k = amount / units;
        let loss = sender_before - sender_after;
        let gain = recipient_after - recipient_before;
        moved = if k <= held {
            k
        } else {
            held
        };
        taken = if loss <= held {
            loss
        } else {
            held
        };
        given = gain - moved;
    }
    proof {
        lemma_entitlements_bound(s1, u);
        lemma_whole_units_bound(sum_entitlements(s1, u), sum_balances(s1), u);
        lemma_sync_room(s1, n0, u, sender@, recipient@, taken as nat, moved as nat, given as nat);
    }
    let ghost p0 = state.registry.pool@;
    if moved > 0 {
        resp.moved = state.registry.move_tokens(sender, recipient, moved);
    }
    let ghost n1 = state.registry.nfts@;
    if taken - moved > 0 {
        resp.reclaimed = state.registry.reclaim_tokens(sender, taken - moved);
    }
    let ghost n2 = state.registry.nfts@;
    let ghost p2 = state.registry.pool@;
    proof {
        assert(p2 =~= p0 + resp.reclaimed@);
    }
    if given > 0 {
        resp.assigned = state.registry.assign_tokens(
            recipient,
            &state.token_info.base_token_uri,
            given,
        );
    } else {
        assert(p2.take(p2.len() as int) =~= p2);
    }
    proof {
        let n3 = state.registry.nfts@;
        assert forall|a: Seq<char>| a != sender@ && a != recipient@ implies owned_count(n3, a)
            == owned_count(n0, a) by {
            assert(owned_count(n1, a) == owned_count(n0, a));
            assert(owned_count(n2, a) == owned_count(n1, a));
        }
        assert(owned_count(n1, sender@) == owned_count(n0, sender@) - moved);
        assert(owned_count(n1, recipient@) == owned_count(n0, recipient@) + moved);
        assert(owned_count(n2, recipient@) == owned_count(n1, recipient@));
        assert(owned_count(n3, sender@) == owned_count(n2, sender@));
        lemma_sync_result(s1, n0, n3, u, sender@, recipient@, taken as nat, moved as nat, given as nat);
        lemma_transfer_ids(n0, n1, n2, n3, sender@, recipient@, resp.moved@, resp.reclaimed@);
    }
    Ok(resp)
}

/// Adding the recipient to the listed addresses adds none of its tokens.
proof fn lemma_listing(
    s0: Seq<Account>,
    s1: Seq<Account>,
    n0: Seq<Option<NftInfo>>,
    s: Seq<char>,
    r: Seq<char>,
)
    requires
        lookup(s0, s) is Some,
        lookup(s0, r) is Some ==> addresses(s1) == addresses(s0),
        lookup(s0, r) is None ==> addresses(s1) == addresses(s0).push(r),
        lookup(s0, r) is None ==> owned_count(n0, r) == 0,
    ensures
        sum_over(addresses(s1), owned_fn(n0)) == sum_over(addresses(s0), owned_fn(n0)),
{
    if lookup(s0, r) is None {
        assert(addresses(s1).drop_last() =~= addresses(s0));
    }
}

/// The tokens a transfer will hold after synchronising fit within the
/// entitlements, so minting stays in the counter's range.
proof fn lemma_sync_room(
    s1: Seq<Account>,
    n0: Seq<Option<NftInfo>>,
    u: nat,
    s: Seq<char>,
    r: Seq<char>,
    taken: nat,
    moved: nat,
    given: nat,
)
    requires
        unique_addresses(s1),
        u > 0,
        s != r,
        addresses(s1).contains(s),
        addresses(s1).contains(r),
        forall|a: Seq<char>| a != s && a != r ==> owned_count(n0, a) <= entitlement_of(s1, a, u),
        moved <= taken <= owned_count(n0, s),
        owned_count(n0, s) - taken <= entitlement_of(s1, s, u),
        owned_count(n0, r) + moved + given <= entitlement_of(s1, r, u),
    ensures
        sum_over(addresses(s1), owned_fn(n0)) - taken + moved + given <= sum_entitlements(s1, u),
{
    let g = |a: Seq<char>|
        if a == s {
            (owned_count(n0, a) - taken) as nat
        } else if a == r {
            (owned_count(n0, a) + moved + given) as nat
        } else {
            owned_count(n0, a)
        };
    lemma_addresses_unique(s1);
    lemma_sum_over_change(addresses(s1), owned_fn(n0), g, s, r);
    assert forall|i: int| 0 <= i < s1.len() implies g((#[trigger] s1[i]).address@)
        <= crate::ledger::entitlement(s1[i], u) by {
        lemma_lookup_at(s1, i);
    }
    lemma_sum_over_bound(s1, g, u);
}

/// After synchronising, every address owns at most its entitlement and the
/// tokens in circulation are those the listed addresses own.
proof fn lemma_sync_result(
    s1: Seq<Account>,
    n0: Seq<Option<NftInfo>>,
    n3: Seq<Option<NftInfo>>,
    u: nat,
    s: Seq<char>,
    r: Seq<char>,
    taken: nat,
    moved: nat,
    given: nat,
)
    requires
        unique_addresses(s1),
        s != r,
        addresses(s1).contains(s),
        addresses(s1).contains(r),
        forall|a: Seq<char>| a != s && a != r ==> owned_count(n0, a) <= entitlement_of(s1, a, u),
        forall|a: Seq<char>| a != s && a != r ==> #[trigger] owned_count(n3, a) == owned_count(n0, a),
        moved <= taken <= owned_count(n0, s),
        owned_count(n3, s) == owned_count(n0, s) - taken,
        owned_count(n3, r) == owned_count(n0, r) + moved + given,
        owned_count(n0, s) - taken <= entitlement_of(s1, s, u),
        owned_count(n0, r) + moved + given <= entitlement_of(s1, r, u),
    ensures
        forall|a: Seq<char>|
            #![trigger owned_count(n3, a)]
            owned_count(n3, a) <= entitlement_of(s1, a, u),
        sum_over(addresses(s1), owned_fn(n3)) == sum_over(addresses(s1), owned_fn(n0)) - taken
            + moved + given,
{
    lemma_addresses_unique(s1);
    lemma_sum_over_change(addresses(s1), owned_fn(n0), owned_fn(n3), s, r);
}

/// Where the identifiers of a transfer came from and went to.
proof fn lemma_transfer_ids(
    n0: Seq<Option<NftInfo>>,
    n1: Seq<Option<NftInfo>>,
    n2: Seq<Option<NftInfo>>,
    n3: Seq<Option<NftInfo>>,
    s: Seq<char>,
    r: Seq<char>,
    moved: Seq<u128>,
    reclaimed: Seq<u128>,
)
    requires
        s != r,
        n1.len() == n0.len(),
        n2.len() == n1.len(),
        n3.len() >= n2.len(),
        forall|j: int|
            0 <= j < n0.len() && !held_by(#[trigger] n0[j], s) ==> n1[j] == n0[j],
        forall|k: int|
            0 <= k < moved.len() ==> 1 <= #[trigger] moved[k] <= n1.len() && held_by(
                n1[moved[k] - 1],
                r,
            ) && held_by(n0[moved[k] - 1], s),
        forall|j: int|
            0 <= j < n1.len() && !held_by(#[trigger] n1[j], s) ==> n2[j] == n1[j],
        forall|k: int|
            0 <= k < reclaimed.len() ==> 1 <= #[trigger] reclaimed[k] <= n1.len() && held_by(
                n1[reclaimed[k] - 1],
                s,
            ),
        forall|j: int| 0 <= j < n2.len() && (#[trigger] n2[j]) is Some ==> n3[j] == n2[j],
    ensures
        forall|k: int|
            0 <= k < moved.len() ==> 1 <= #[trigger] moved[k] <= n0.len() && held_by(
                n0[moved[k] - 1],
                s,
            ) && held_by(n3[moved[k] - 1], r),
        forall|k: int|
            0 <= k < reclaimed.len() ==> 1 <= #[trigger] reclaimed[k] <= n0.len() && held_by(
                n0[reclaimed[k] - 1],
                s,
            ),
        forall|j: int|
            0 <= j < n0.len() && (#[trigger] n0[j]) is Some && !held_by(n0[j], s) ==> n3[j]
                == n0[j],
{
    assert forall|k: int| 0 <= k < moved.len() implies 1 <= #[trigger] moved[k] <= n0.len()
        && held_by(n0[moved[k] - 1], s) && held_by(n3[moved[k] - 1], r) by {
        let i = moved[k] - 1;
        assert(n2[i] == n1[i]);
        assert(n3[i] == n2[i]);
    }
    assert forall|k: int| 0 <= k < reclaimed.len() implies 1 <= #[trigger] reclaimed[k] <= n0.len()
        && held_by(n0[reclaimed[k] - 1], s) by {
        let i = reclaimed[k] - 1;
        if !held_by(n0[i], s) {
            assert(n1[i] == n0[i]);
        }
    }
    assert forall|j: int|
        0 <= j < n0.len() && (#[trigger] n0[j]) is Some && !held_by(n0[j], s) implies n3[j]
        == n0[j] by {
        assert(n1[j] == n0[j]);
        assert(n2[j] == n1[j]);
    }
}

/// Opens a contract instance: validates the message, seeds the balances
/// (each initial amount counts whole units and is scaled by `10^decimals`),
/// and marks the admin transfer-exempt.
pub fn instantiate(msg: InstantiateMsg) -> (r: Result<ContractState, ContractError>)
    ensures
        msg.first_invalid() matches Some(f) ==> r == Err::<ContractState, ContractError>(
            ContractError::InvalidInput { field: f },
        ),
        msg.first_invalid() is None && !distinct_coins(msg.initial_balances@) ==> r == Err::<
            ContractState,
            ContractError,
        >(ContractError::DuplicateInitialBalanceses),
        msg.first_invalid() is None && distinct_coins(msg.initial_balances@) && !coins_fit(
            msg.initial_balances@,
        ) ==> r == Err::<ContractState, ContractError>(ContractError::Overflow),
        msg.first_invalid() is None && distinct_coins(msg.initial_balances@) && coins_fit(
            msg.initial_balances@,
        ) ==> r is Ok,
        r matches Ok(st) ==> {
            let coins = msg.initial_balances@;
            &&& st.wf()
            &&& st.token_info.name@ == msg.name@
            &&& st.token_info.symbol@ == msg.symbol@
            &&& st.token_info.decimals == msg.decimals
            &&& st.token_info.admin@ == msg.admin@
            &&& st.token_info.base_token_uri == msg.base_token_uri
            &&& st.units() == pow10(msg.decimals as nat)
            &&& st.token_info.total_supply == total_amount(coins) * st.units()
            &&& st.max_nft_supply == total_amount(coins)
            &&& st.registry.pool@.len() == 0
            &&& st.registry.nfts@.len() == 0
            &&& st.registry.nft_count == 0
            &&& forall|i: int|
                0 <= i < coins.len() ==> st.balance_view(#[trigger] coins[i].address@)
                    == coins[i].amount * st.units()
            &&& forall|a: Seq<char>|
                (forall|i: int| 0 <= i < coins.len() ==> a != (#[trigger] coins[i]).address@)
                    ==> st.balance_view(a) == 0
            &&& forall|a: Seq<char>| #[trigger] st.exempt_view(a) <==> a == msg.admin@
        },
{
    match msg.validate() {
        Ok(()) => {},
        Err(e) => {
            return Err(e);
        },
    }
    let units = units_for_decimals(msg.decimals);
    let (ledger, total_supply) = match create_accounts(&msg.initial_balances, units, &msg.admin) {
        Ok(built) => built,
        Err(e) => {
            return Err(e);
        },
    };
    let max_nft_supply = total_supply / units;
    let registry = TokenRegistry::new();
    proof {
        let f = owned_fn(registry.nfts@);
        assert forall|a: Seq<char>| #[trigger] f(a) == 0 by {}
        lemma_sum_over_zero(addresses(ledger.accounts@), f);
        assert forall|a: Seq<char>| #[trigger] owned_count(registry.nfts@, a) == 0 by {}
        let t = total_amount(msg.initial_balances@);
        assert(max_nft_supply == t) by (nonlinear_arith)
            requires
                total_supply == t * units,
                max_nft_supply == total_supply / units,
                units >= 1,
        ;
    }
    let token_info = TokenInfo {
        name: msg.name,
        symbol: msg.symbol,
        decimals: msg.decimals,
        total_supply,
        admin: msg.admin,
        units,
        base_token_uri: msg.base_token_uri,
    };
    Ok(ContractState { token_info, max_nft_supply, ledger, registry })
}

/// Runs one state-changing message sent by `sender`.
pub fn execute(state: &mut ContractState, sender: &String, msg: ExecuteMsg) -> (r: Result<
    TransferResponse,
    ContractError,
>)
    requires
        old(state).wf(),
    ensures
        final(state).wf(),
        match msg {
            ExecuteMsg::Transfer { recipient, amount } => transfer_outcome(
                *old(state),
                *final(state),
                sender@,
                recipient@,
                amount,
                r,
            ),
        },
{
    match msg {
        ExecuteMsg::Transfer { recipient, amount } => execute_transfer(
            state,
            sender,
            &recipient,
            amount,
        ),
    }
}

/// Balances always add up to the total supply fixed at instantiation; since
/// every transfer keeps the state well formed and the metadata unchanged,
/// this holds after any sequence of transfers.
pub proof fn conservation(st: ContractState)
    requires
        st.wf(),
    ensures
        sum_balances(st.ledger.accounts@) == st.token_info.total_supply,
{
}

/// Tokens minted less tokens in the pool never exceed the backing ceiling.
pub proof fn backing_bound(st: ContractState)
    requires
        st.wf(),
    ensures
        st.outstanding() == live_count(st.registry.nfts@),
        st.outstanding() <= st.max_nft_supply,
{
    let u = st.units();
    lemma_owned_within_entitlements(st.ledger.accounts@, st.registry.nfts@, u);
    lemma_entitlements_bound(st.ledger.accounts@, u);
    lemma_whole_units_bound(
        sum_entitlements(st.ledger.accounts@, u),
        sum_balances(st.ledger.accounts@),
        u,
    );
}

} // verus!
