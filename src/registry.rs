use vstd::prelude::*;

use crate::error::ContractError;
use vstd::string::StringExecFns;

verus! {

/// When an approval stops being valid.
#[derive(Debug, Clone, Copy, PartialEq, Eq, Structural)]
pub enum Expiration {
    /// Expires once the block height reaches this value.
    AtHeight(u64),
    /// Expires once the block time (nanoseconds) reaches this value.
    AtTime(u64),
    /// Never expires.
    Never,
}

/// The block an operation runs in.
#[derive(Debug, Clone, Copy, PartialEq, Eq, Structural)]
pub struct BlockInfo {
    pub height: u64,
    pub time_nanos: u64,
}

pub open spec fn expired_at(e: Expiration, block: BlockInfo) -> bool {
    match e {
        Expiration::AtHeight(h) => block.height >= h,
        Expiration::AtTime(t) => block.time_nanos >= t,
        Expiration::Never => false,
    }
}

impl Expiration {
    pub fn is_expired(&self, block: &BlockInfo) -> (r: bool)
        ensures
            r == expired_at(*self, *block),
    {
        match self {
            Expiration::AtHeight(h) => block.height >= *h,
            Expiration::AtTime(t) => block.time_nanos >= *t,
            Expiration::Never => false,
        }
    }
}

/// A spender allowed to move one token until `expires`.
#[derive(Debug)]
pub struct Approval {
    pub spender: String,
    pub expires: Expiration,
}

/// The record of an owned token.
#[derive(Debug)]
pub struct NftInfo {
    pub owner: String,
    pub approvals: Vec<Approval>,
    pub token_uri: Option<String>,
}

/// The owner-index key of a token record.
pub fn nft_owner_idx(_pk: &[u8], d: &NftInfo) -> (r: String)
    ensures
        r@ == d.owner@,
{
    d.owner.clone()
}

/// Whether a slot holds a token owned by `a`.
pub open spec fn held_by(slot: Option<NftInfo>, a: Seq<char>) -> bool {
    slot is Some && slot->Some_0.owner@ == a
}

/// How many slots hold a token owned by `a`.
pub open spec fn owned_count(s: Seq<Option<NftInfo>>, a: Seq<char>) -> nat
    decreases s.len(),
{
    if s.len() == 0 {
        0
    } else {
        owned_count(s.drop_last(), a) + if held_by(s.last(), a) {
            1nat
        } else {
            0nat
        }
    }
}

/// `owned_count` as a function of the owner.
pub open spec fn owned_fn(s: Seq<Option<NftInfo>>) -> spec_fn(Seq<char>) -> nat {
    |a: Seq<char>| owned_count(s, a)
}

/// How many slots hold a token at all.
pub open spec fn live_count(s: Seq<Option<NftInfo>>) -> nat
    decreases s.len(),
{
    if s.len() == 0 {
        0
    } else {
        live_count(s.drop_last()) + if s.last() is Some {
            1nat
        } else {
            0nat
        }
    }
}

/// The identifiers of the tokens `a` owns, in increasing order.
pub open spec fn owned_ids(s: Seq<Option<NftInfo>>, a: Seq<char>) -> Seq<u128>
    decreases s.len(),
{
    if s.len() == 0 {
        seq![]
    } else {
        let rest = owned_ids(s.drop_last(), a);
        if held_by(s.last(), a) {
            rest.push(s.len() as u128)
        } else {
            rest
        }
    }
}

pub proof fn lemma_owned_ids_len(s: Seq<Option<NftInfo>>, a: Seq<char>)
    ensures
        owned_ids(s, a).len() == owned_count(s, a),
    decreases s.len(),
{
    if s.len() > 0 {
        lemma_owned_ids_len(s.drop_last(), a);
    }
}

pub proof fn lemma_counts_update(s: Seq<Option<NftInfo>>, i: int, v: Option<NftInfo>)
    requires
        0 <= i < s.len(),
    ensures
        forall|a: Seq<char>|
            #![trigger owned_count(s.update(i, v), a)]
            owned_count(s.update(i, v), a) + (if held_by(s[i], a) {
                1int
            } else {
                0int
            }) == owned_count(s, a) + (if held_by(v, a) {
                1int
            } else {
                0int
            }),
        live_count(s.update(i, v)) + (if s[i] is Some {
            1int
        } else {
            0int
        }) == live_count(s) + (if v is Some {
            1int
        } else {
            0int
        }),
    decreases s.len(),
{
    let t = s.update(i, v);
    if i == s.len() - 1 {
        assert(t.drop_last() =~= s.drop_last());
    } else {
        lemma_counts_update(s.drop_last(), i, v);
        assert(t.drop_last() =~= s.drop_last().update(i, v));
        assert(t.last() == s.last());
        assert forall|a: Seq<char>|
            #![trigger owned_count(t, a)]
            owned_count(t, a) + (if held_by(s[i], a) {
                1int
            } else {
                0int
            }) == owned_count(s, a) + (if held_by(v, a) {
                1int
            } else {
                0int
            }) by {
            assert(owned_count(t.drop_last(), a) + (if held_by(s.drop_last()[i], a) {
                1int
            } else {
                0int
            }) == owned_count(s.drop_last(), a) + (if held_by(v, a) {
                1int
            } else {
                0int
            }));
        }
    }
}

pub proof fn lemma_counts_push(s: Seq<Option<NftInfo>>, v: Option<NftInfo>)
    ensures
        forall|a: Seq<char>|
            #![trigger owned_count(s.push(v), a)]
            owned_count(s.push(v), a) == owned_count(s, a) + (if held_by(v, a) {
                1int
            } else {
                0int
            }),
        live_count(s.push(v)) == live_count(s) + (if v is Some {
            1int
        } else {
            0int
        }),
{
    assert(s.push(v).drop_last() =~= s);
}

proof fn lemma_none_owned(s: Seq<Option<NftInfo>>, a: Seq<char>)
    requires
        forall|j: int| 0 <= j < s.len() ==> !held_by(#[trigger] s[j], a),
    ensures
        owned_count(s, a) == 0,
    decreases s.len(),
{
    if s.len() > 0 {
        lemma_none_owned(s.drop_last(), a);
    }
}

/// The pool after `n` retrieve-or-mint operations: its last `n` entries are
/// handed out first.
pub open spec fn pool_after_assign(pool: Seq<u128>, n: nat) -> Seq<u128> {
    if n <= pool.len() {
        pool.take(pool.len() - n)
    } else {
        seq![]
    }
}

/// The identifier the `k`-th of a run of retrieve-or-mint operations hands
/// out: the pool from its tail, then fresh identifiers after `count`.
pub open spec fn assigned_id(pool: Seq<u128>, count: u64, k: int) -> int {
    if k < pool.len() {
        pool[pool.len() - 1 - k] as int
    } else {
        count + (k - pool.len()) + 1
    }
}

/// How many of `n` retrieve-or-mint operations mint a fresh identifier.
pub open spec fn minted_by_assign(pool_len: nat, n: nat) -> nat {
    if n <= pool_len {
        0
    } else {
        (n - pool_len) as nat
    }
}

/// Renders `n` in decimal.
pub open spec fn decimal_text(n: nat) -> Seq<char>
    decreases n,
{
    if n < 10 {
        seq![digit_char(n)]
    } else {
        decimal_text(n / 10).push(digit_char(n % 10))
    }
}

pub open spec fn digit_char(d: nat) -> char {
    if d == 0 {
        '0'
    } else if d == 1 {
        '1'
    } else if d == 2 {
        '2'
    } else if d == 3 {
        '3'
    } else if d == 4 {
        '4'
    } else if d == 5 {
        '5'
    } else if d == 6 {
        '6'
    } else if d == 7 {
        '7'
    } else if d == 8 {
        '8'
    } else {
        '9'
    }
}

/// The decimal digit `d`, for `d < 10`.
fn digit(d: u128) -> (r: String)
    requires
        d < 10,
    ensures
        r@ == seq![digit_char(d as nat)],
{
    let t: &str = if d == 0 {
        proof {
            reveal_strlit("0");
        }
        "0"
    } else if d == 1 {
        proof {
            reveal_strlit("1");
        }
        "1"
    } else if d == 2 {
        proof {
            reveal_strlit("2");
        }
        "2"
    } else if d == 3 {
        proof {
            reveal_strlit("3");
        }
        "3"
    } else if d == 4 {
        proof {
            reveal_strlit("4");
        }
        "4"
    } else if d == 5 {
        proof {
            reveal_strlit("5");
        }
        "5"
    } else if d == 6 {
        proof {
            reveal_strlit("6");
        }
        "6"
    } else if d == 7 {
        proof {
            reveal_strlit("7");
        }
        "7"
    } else if d == 8 {
        proof {
            reveal_strlit("8");
        }
        "8"
    } else {
        proof {
            reveal_strlit("9");
        }
        "9"
    };
    assert(t@ =~= seq![digit_char(d as nat)]);
    String::from_str(t)
}

/// `n` in decimal: its digits, most significant first, with no sign or padding.
pub fn decimal(n: u128) -> (r: String)
    ensures
        r@ == decimal_text(n as nat),
    decreases n,
{
    if n < 10 {
        digit(n)
    } else {
        let head = decimal(n / 10);
        let last = digit(n % 10);
        let r = head.concat(last.as_str());
        assert(r@ =~= decimal_text(n as nat));
        r
    }
}

/// The URI of token `id`: the base followed by the decimal identifier.
pub open spec fn token_uri_for(base: Option<String>, id: u128) -> Option<Seq<char>> {
    match base {
        Some(b) => Some(b@ + decimal_text(id as nat)),
        None => None,
    }
}

pub fn make_token_uri(base: &Option<String>, id: u128) -> (r: Option<String>)
    ensures
        r matches Some(u) ==> token_uri_for(*base, id) == Some(u@),
        r is None <==> base is None,
{
    match base {
        Some(b) => {
            let digits = decimal(id);
            Some(b.clone().concat(digits.as_str()))
        },
        None => None,
    }
}

/// Token records by identifier, with the pool of identifiers free for reuse.
///
/// Identifier `id` (from 1) lives in slot `id - 1`; a slot is `None` while
/// its identifier waits in the pool.
pub struct TokenRegistry {
    pub nfts: Vec<Option<NftInfo>>,
    pub pool: Vec<u128>,
    pub nft_count: u64,
}

impl TokenRegistry {
    /// Whether identifier `id` has been minted and currently waits in the pool.
    pub open spec fn pooled_ok(&self, id: u128) -> bool {
        1 <= id <= self.nfts@.len() && self.nfts@[id - 1] is None
    }

    pub open spec fn wf(&self) -> bool {
        &&& self.nft_count as int == self.nfts@.len()
        &&& self.pool@.no_duplicates()
        &&& forall|i: int| 0 <= i < self.pool@.len() ==> self.pooled_ok(#[trigger] self.pool@[i])
        &&& live_count(self.nfts@) + self.pool@.len() == self.nfts@.len()
    }

    /// The identifier the next retrieve-or-mint hands out.
    pub open spec fn next_token_id(&self) -> u128 {
        if self.pool@.len() > 0 {
            self.pool@.last()
        } else {
            (self.nft_count + 1) as u128
        }
    }

    pub fn new() -> (r: Self)
        ensures
            r.wf(),
            r.nfts@.len() == 0,
            r.pool@.len() == 0,
            r.nft_count == 0,
    {
        let r = TokenRegistry { nfts: Vec::new(), pool: Vec::new(), nft_count: 0 };
        assert(r.nfts@.len() == 0);
        r
    }

    /// Assigns a token to `owner`: the last pooled identifier if any,
    /// otherwise a freshly minted one.
    pub fn retrieve_or_mint(&mut self, owner: &String, base_uri: &Option<String>) -> (r: Result<
        u128,
        ContractError,
    >)
        requires
            old(self).wf(),
        ensures
            final(self).wf(),
            r is Err <==> old(self).pool@.len() == 0 && old(self).nft_count == u64::MAX,
            r is Err ==> r == Err::<u128, ContractError>(ContractError::Overflow) && *final(self)
                == *old(self),
            r is Ok ==> r == Ok::<u128, ContractError>(old(self).next_token_id()),
            r is Ok && old(self).pool@.len() > 0 ==> final(self).pool@ == old(self).pool@.drop_last()
                && final(self).nft_count == old(self).nft_count,
            r is Ok && old(self).pool@.len() == 0 ==> final(self).pool@ == old(self).pool@
                && final(self).nft_count == old(self).nft_count + 1,
            r is Ok ==> (final(self).nfts@[old(self).next_token_id() - 1] matches Some(t) && t.owner@
                == owner@ && t.approvals@.len() == 0 && (t.token_uri is None <==> base_uri is None)
                && (t.token_uri matches Some(u) ==> token_uri_for(*base_uri, old(self).next_token_id())
                == Some(u@))),
            r is Ok ==> forall|a: Seq<char>|
                #![trigger owned_count(final(self).nfts@, a)]
                owned_count(final(self).nfts@, a) == owned_count(old(self).nfts@, a) + (if a
                    == owner@ {
                    1int
                } else {
                    0int
                }),
            r is Ok ==> live_count(final(self).nfts@) == live_count(old(self).nfts@) + 1,
            r is Ok ==> 1 <= old(self).next_token_id() <= final(self).nfts@.len(),
            r is Ok ==> final(self).nfts@.len() >= old(self).nfts@.len(),
            r is Ok ==> forall|j: int|
                0 <= j < old(self).nfts@.len() && (#[trigger] old(self).nfts@[j]) is Some
                    ==> final(self).nfts@[j] == old(self).nfts@[j],
    {
        let ghost s0 = self.nfts@;
        let n = self.pool.len();
        if n > 0 {
            let id = self.pool[n - 1];
            assert(self.pooled_ok(self.pool@[n - 1]));
            let len = self.nfts.len();
            assert(1 <= id <= len);
            let slot = (id - 1) as usize;
            assert(self.nfts@[slot as int] is None);
            if self.nfts[slot].is_some() {
                return Err(ContractError::Claimed);
            }
            let token_uri = make_token_uri(base_uri, id);
            let info = NftInfo { owner: owner.clone(), approvals: Vec::new(), token_uri };
            let ghost v = Some(info);
            self.pool.pop();
            self.nfts.set(slot, Some(info));
            proof {
                lemma_counts_update(s0, slot as int, v);
                assert forall|i: int| 0 <= i < self.pool@.len() implies self.pooled_ok(
                    #[trigger] self.pool@[i],
                ) by {
                    assert(old(self).pool@[i] == self.pool@[i]);
                    assert(old(self).pooled_ok(old(self).pool@[i]));
                    assert(old(self).pool@[i] != id);
                }
                assert(self.pool@.no_duplicates());
            }
            Ok(id)
        } else {
            if self.nft_count == u64::MAX {
                return Err(ContractError::Overflow);
            }
            self.nft_count = self.nft_count + 1;
            let id = self.nft_count as u128;
            let token_uri = make_token_uri(base_uri, id);
            let info = NftInfo { owner: owner.clone(), approvals: Vec::new(), token_uri };
            let ghost v = Some(info);
            self.nfts.push(Some(info));
            proof {
                lemma_counts_push(s0, v);
            }
            Ok(id)
        }
    }

    /// The owner index: the identifiers of the tokens `owner` holds, in
    /// increasing order.
    pub fn tokens_of(&self, owner: &String) -> (r: Vec<u128>)
        ensures
            r@ == owned_ids(self.nfts@, owner@),
            r@.len() == owned_count(self.nfts@, owner@),
    {
        let mut out: Vec<u128> = Vec::new();
        let mut i: usize = 0;
        while i < self.nfts.len()
            invariant
                i <= self.nfts@.len(),
                out@ == owned_ids(self.nfts@.take(i as int), owner@),
            decreases self.nfts@.len() - i,
        {
            proof {
                assert(self.nfts@.take(i + 1).drop_last() =~= self.nfts@.take(i as int));
                assert(self.nfts@.take(i + 1).last() == self.nfts@[i as int]);
            }
            let held = match &self.nfts[i] {
                Some(t) => t.owner == *owner,
                None => false,
            };
            if held {
                out.push((i as u128) + 1);
            }
            i = i + 1;
        }
        proof {
            assert(self.nfts@.take(i as int) =~= self.nfts@);
            lemma_owned_ids_len(self.nfts@, owner@);
        }
        out
    }

    /// The smallest identifier owned by `owner`, with its slot.
    fn lowest_owned(&self, owner: &String) -> (r: usize)
        requires
            owned_count(self.nfts@, owner@) > 0,
        ensures
            r < self.nfts@.len(),
            held_by(self.nfts@[r as int], owner@),
            forall|j: int| 0 <= j < r ==> !held_by(#[trigger] self.nfts@[j], owner@),
    {
        let mut i: usize = 0;
        while i < self.nfts.len()
            invariant
                i <= self.nfts@.len(),
                forall|j: int| 0 <= j < i ==> !held_by(#[trigger] self.nfts@[j], owner@),
            decreases self.nfts@.len() - i,
        {
            let found = match &self.nfts[i] {
                Some(t) => t.owner == *owner,
                None => false,
            };
            if found {
                return i;
            }
            i = i + 1;
        }
        proof {
            lemma_none_owned(self.nfts@, owner@);
        }
        0
    }

    /// Withdraws the lowest-numbered token of `owner` into the pool and
    /// returns its identifier.
    pub fn reclaim(&mut self, owner: &String) -> (r: u128)
        requires
            old(self).wf(),
            owned_count(old(self).nfts@, owner@) > 0,
        ensures
            final(self).wf(),
            1 <= r <= old(self).nfts@.len(),
            held_by(old(self).nfts@[r - 1], owner@),
            forall|j: int| 0 <= j < r - 1 ==> !held_by(#[trigger] old(self).nfts@[j], owner@),
            final(self).nfts@ == old(self).nfts@.update(r - 1, None),
            final(self).pool@ == old(self).pool@.push(r),
            final(self).nft_count == old(self).nft_count,
            forall|a: Seq<char>|
                #![trigger owned_count(final(self).nfts@, a)]
                owned_count(final(self).nfts@, a) == owned_count(old(self).nfts@, a) - (if a
                    == owner@ {
                    1int
                } else {
                    0int
                }),
            live_count(final(self).nfts@) == live_count(old(self).nfts@) - 1,
    {
        let ghost s0 = self.nfts@;
        let slot = self.lowest_owned(owner);
        let id = (slot as u128) + 1;
        self.nfts.set(slot, None);
        self.pool.push(id);
        proof {
            lemma_counts_update(s0, slot as int, None);
            assert forall|i: int| 0 <= i < self.pool@.len() implies self.pooled_ok(
                #[trigger] self.pool@[i],
            ) by {
                if i < old(self).pool@.len() {
                    assert(old(self).pooled_ok(old(self).pool@[i]));
                }
            }
            assert forall|i: int, j: int|
                0 <= i < self.pool@.len() && 0 <= j < self.pool@.len() && i != j implies self.pool@[i]
                != self.pool@[j] by {
                if i < old(self).pool@.len() {
                    assert(old(self).pooled_ok(old(self).pool@[i]));
                }
                if j < old(self).pool@.len() {
                    assert(old(self).pooled_ok(old(self).pool@[j]));
                }
            }
        }
        id
    }

    /// Hands the lowest-numbered token of `from` to `to`, clearing its
    /// approvals; returns its identifier.
    pub fn move_token(&mut self, from: &String, to: &String) -> (r: u128)
        requires
            old(self).wf(),
            owned_count(old(self).nfts@, from@) > 0,
            from@ != to@,
        ensures
            final(self).wf(),
            1 <= r <= old(self).nfts@.len(),
            held_by(old(self).nfts@[r - 1], from@),
            final(self).nfts@[r - 1] matches Some(t) && t.owner@ == to@ && t.approvals@.len() == 0,
            forall|j: int|
                0 <= j < final(self).nfts@.len() && j != r - 1 ==> final(self).nfts@[j]
                    == old(self).nfts@[j],
            final(self).nfts@.len() == old(self).nfts@.len(),
            final(self).pool@ == old(self).pool@,
            final(self).nft_count == old(self).nft_count,
            forall|a: Seq<char>|
                #![trigger owned_count(final(self).nfts@, a)]
                owned_count(final(self).nfts@, a) == owned_count(old(self).nfts@, a) + (if a
                    == to@ {
                    1int
                } else {
                    0int
                }) - (if a == from@ {
                    1int
                } else {
                    0int
                }),
            live_count(final(self).nfts@) == live_count(old(self).nfts@),
    {
        let ghost s0 = self.nfts@;
        let slot = self.lowest_owned(from);
        let token_uri = match &self.nfts[slot] {
            Some(t) => t.token_uri.clone(),
            None => None,
        };
        let info = NftInfo { owner: to.clone(), approvals: Vec::new(), token_uri };
        let ghost v = Some(info);
        self.nfts.set(slot, Some(info));
        proof {
            lemma_counts_update(s0, slot as int, v);
            assert forall|i: int| 0 <= i < self.pool@.len() implies self.pooled_ok(
                #[trigger] self.pool@[i],
            ) by {
                assert(old(self).pooled_ok(old(self).pool@[i]));
            }
        }
        (slot as u128) + 1
    }

    /// Retrieves or mints `n` tokens for `owner`, in order.
    pub fn assign_tokens(&mut self, owner: &String, base_uri: &Option<String>, n: u128) -> (r:
        Vec<u128>)
        requires
            old(self).wf(),
            live_count(old(self).nfts@) + n < u64::MAX,
        ensures
            final(self).wf(),
            r@.len() == n,
            old(self).pool@.len() == 0 ==> final(self).pool@.len() == 0,
            n <= old(self).pool@.len() ==> final(self).pool@ == old(self).pool@.take(
                old(self).pool@.len() - n,
            ) && final(self).nft_count == old(self).nft_count,
            n > old(self).pool@.len() ==> final(self).pool@.len() == 0 && final(self).nft_count
                == old(self).nft_count + (n - old(self).pool@.len()),
            final(self).pool@ == pool_after_assign(old(self).pool@, n as nat),
            forall|k: int|
                0 <= k < r@.len() ==> #[trigger] r@[k] == assigned_id(
                    old(self).pool@,
                    old(self).nft_count,
                    k,
                ),
            final(self).nft_count == old(self).nft_count + minted_by_assign(
                old(self).pool@.len(),
                n as nat,
            ),
            final(self).nfts@.len() >= old(self).nfts@.len(),
            forall|j: int|
                0 <= j < old(self).nfts@.len() && (#[trigger] old(self).nfts@[j]) is Some
                    ==> final(self).nfts@[j] == old(self).nfts@[j],
            forall|k: int|
                0 <= k < r@.len() ==> 1 <= #[trigger] r@[k] <= final(self).nfts@.len() && held_by(
                    final(self).nfts@[r@[k] - 1],
                    owner@,
                ),
            forall|a: Seq<char>|
                #![trigger owned_count(final(self).nfts@, a)]
                owned_count(final(self).nfts@, a) == owned_count(old(self).nfts@, a) + (if a
                    == owner@ {
                    n as int
                } else {
                    0int
                }),
            live_count(final(self).nfts@) == live_count(old(self).nfts@) + n,
    {
        let mut ids: Vec<u128> = Vec::new();
        let mut i: u128 = 0;
        while i < n
            invariant
                self.wf(),
                i <= n,
                ids@.len() == i,
                old(self).pool@.len() == 0 ==> self.pool@.len() == 0,
                i <= old(self).pool@.len() ==> self.pool@ == old(self).pool@.take(
                    old(self).pool@.len() - i,
                ) && self.nft_count == old(self).nft_count,
                forall|k: int|
                    0 <= k < ids@.len() ==> #[trigger] ids@[k] == assigned_id(
                        old(self).pool@,
                        old(self).nft_count,
                        k,
                    ),
                i > old(self).pool@.len() ==> self.pool@.len() == 0 && self.nft_count
                    == old(self).nft_count + (i - old(self).pool@.len()),
                self.nfts@.len() >= old(self).nfts@.len(),
                forall|j: int|
                    0 <= j < old(self).nfts@.len() && (#[trigger] old(self).nfts@[j]) is Some
                        ==> self.nfts@[j] == old(self).nfts@[j],
                forall|k: int|
                    0 <= k < ids@.len() ==> 1 <= #[trigger] ids@[k] <= self.nfts@.len() && held_by(
                        self.nfts@[ids@[k] - 1],
                        owner@,
                    ),
                live_count(old(self).nfts@) + n < u64::MAX,
                live_count(self.nfts@) == live_count(old(self).nfts@) + i,
                forall|a: Seq<char>|
                    #![trigger owned_count(self.nfts@, a)]
                    owned_count(self.nfts@, a) == owned_count(old(self).nfts@, a) + (if a
                        == owner@ {
                        i as int
                    } else {
                        0int
                    }),
            decreases n - i,
        {
            let ghost before = self.nfts@;
            let ghost ids0 = ids@;
            let ghost pool0 = self.pool@;
            let id = match self.retrieve_or_mint(owner, base_uri) {
                Ok(id) => id,
                Err(_) => 0,
            };
            ids.push(id);
            proof {
                if i < old(self).pool@.len() {
                    assert(pool0.drop_last() =~= old(self).pool@.take(
                        old(self).pool@.len() - (i + 1),
                    ));
                    assert(pool0.last() == old(self).pool@[old(self).pool@.len() - 1 - i]);
                }
                assert(ids@[i as int] == id);
                assert forall|k: int| 0 <= k < ids@.len() implies #[trigger] ids@[k] == assigned_id(
                    old(self).pool@,
                    old(self).nft_count,
                    k,
                ) by {
                    if k < i {
                        assert(ids@[k] == ids0[k]);
                    }
                }
                assert forall|k: int|
                    0 <= k < ids@.len() implies 1 <= #[trigger] ids@[k] <= self.nfts@.len()
                    && held_by(self.nfts@[ids@[k] - 1], owner@) by {
                    if k < ids0.len() {
                        assert(ids@[k] == ids0[k]);
                        assert(before[ids0[k] - 1] is Some);
                    }
                }
                assert forall|a: Seq<char>|
                    #![trigger owned_count(self.nfts@, a)]
                    owned_count(self.nfts@, a) == owned_count(old(self).nfts@, a) + (if a
                        == owner@ {
                        (i + 1) as int
                    } else {
                        0int
                    }) by {
                    assert(owned_count(before, a) == owned_count(old(self).nfts@, a) + (if a
                        == owner@ {
                        i as int
                    } else {
                        0int
                    }));
                }
            }
            i = i + 1;
        }
        proof {
            if n > old(self).pool@.len() {
                assert(self.pool@ =~= pool_after_assign(old(self).pool@, n as nat));
            }
        }
        ids
    }

    /// Withdraws `n` tokens of `owner` into the pool, lowest identifier first.
    pub fn reclaim_tokens(&mut self, owner: &String, n: u128) -> (r: Vec<u128>)
        requires
            old(self).wf(),
            owned_count(old(self).nfts@, owner@) >= n,
        ensures
            final(self).wf(),
            r@.len() == n,
            final(self).nft_count == old(self).nft_count,
            final(self).nfts@.len() == old(self).nfts@.len(),
            final(self).pool@ == old(self).pool@ + r@,
            forall|j: int|
                0 <= j < old(self).nfts@.len() && !held_by(#[trigger] old(self).nfts@[j], owner@)
                    ==> final(self).nfts@[j] == old(self).nfts@[j],
            forall|k: int|
                0 <= k < r@.len() ==> 1 <= #[trigger] r@[k] <= old(self).nfts@.len() && held_by(
                    old(self).nfts@[r@[k] - 1],
                    owner@,
                ) && final(self).nfts@[r@[k] - 1] is None,
            forall|a: Seq<char>|
                #![trigger owned_count(final(self).nfts@, a)]
                owned_count(final(self).nfts@, a) == owned_count(old(self).nfts@, a) - (if a
                    == owner@ {
                    n as int
                } else {
                    0int
                }),
            live_count(final(self).nfts@) == live_count(old(self).nfts@) - n,
    {
        let mut ids: Vec<u128> = Vec::new();
        let mut i: u128 = 0;
        while i < n
            invariant
                self.wf(),
                i <= n,
                ids@.len() == i,
                owned_count(old(self).nfts@, owner@) >= n,
                self.nft_count == old(self).nft_count,
                self.nfts@.len() == old(self).nfts@.len(),
                self.pool@ == old(self).pool@ + ids@,
                forall|j: int|
                    0 <= j < old(self).nfts@.len() && !held_by(#[trigger] old(self).nfts@[j], owner@)
                        ==> self.nfts@[j] == old(self).nfts@[j],
                forall|k: int|
                    0 <= k < ids@.len() ==> 1 <= #[trigger] ids@[k] <= old(self).nfts@.len()
                        && held_by(old(self).nfts@[ids@[k] - 1], owner@) && self.nfts@[ids@[k]
                        - 1] is None,
                live_count(self.nfts@) == live_count(old(self).nfts@) - i,
                forall|a: Seq<char>|
                    #![trigger owned_count(self.nfts@, a)]
                    owned_count(self.nfts@, a) == owned_count(old(self).nfts@, a) - (if a
                        == owner@ {
                        i as int
                    } else {
                        0int
                    }),
            decreases n - i,
        {
            let ghost before = self.nfts@;
            assert(owned_count(before, owner@) > 0);
            let ghost ids0 = ids@;
            let ghost pool0 = self.pool@;
            let id = self.reclaim(owner);
            ids.push(id);
            proof {
                assert(self.pool@ =~= old(self).pool@ + ids@);
                assert(held_by(old(self).nfts@[id - 1], owner@)) by {
                    if !held_by(old(self).nfts@[id - 1], owner@) {
                        assert(before[id - 1] == old(self).nfts@[id - 1]);
                    }
                }
                assert forall|k: int|
                    0 <= k < ids@.len() implies 1 <= #[trigger] ids@[k] <= old(self).nfts@.len()
                    && held_by(old(self).nfts@[ids@[k] - 1], owner@) && self.nfts@[ids@[k] - 1]
                    is None by {
                    if k < ids0.len() {
                        assert(ids@[k] == ids0[k]);
                        assert(before[ids0[k] - 1] is None);
                    }
                }
                assert forall|a: Seq<char>|
                    #![trigger owned_count(self.nfts@, a)]
                    owned_count(self.nfts@, a) == owned_count(old(self).nfts@, a) - (if a
                        == owner@ {
                        (i + 1) as int
                    } else {
                        0int
                    }) by {
                    assert(owned_count(before, a) == owned_count(old(self).nfts@, a) - (if a
                        == owner@ {
                        i as int
                    } else {
                        0int
                    }));
                }
            }
            i = i + 1;
        }
        ids
    }

    /// Hands `n` tokens of `from` to `to`, lowest identifier first.
    pub fn move_tokens(&mut self, from: &String, to: &String, n: u128) -> (r: Vec<u128>)
        requires
            old(self).wf(),
            owned_count(old(self).nfts@, from@) >= n,
            from@ != to@,
        ensures
            final(self).wf(),
            r@.len() == n,
            final(self).pool@ == old(self).pool@,
            final(self).nft_count == old(self).nft_count,
            final(self).nfts@.len() == old(self).nfts@.len(),
            forall|j: int|
                0 <= j < old(self).nfts@.len() && !held_by(#[trigger] old(self).nfts@[j], from@)
                    ==> final(self).nfts@[j] == old(self).nfts@[j],
            forall|k: int|
                0 <= k < r@.len() ==> 1 <= #[trigger] r@[k] <= final(self).nfts@.len() && held_by(
                    final(self).nfts@[r@[k] - 1],
                    to@,
                ) && held_by(old(self).nfts@[r@[k] - 1], from@),
            forall|a: Seq<char>|
                #![trigger owned_count(final(self).nfts@, a)]
                owned_count(final(self).nfts@, a) == owned_count(old(self).nfts@, a) + (if a
                    == to@ {
                    n as int
                } else {
                    0int
                }) - (if a == from@ {
                    n as int
                } else {
                    0int
                }),
            live_count(final(self).nfts@) == live_count(old(self).nfts@),
    {
        let mut ids: Vec<u128> = Vec::new();
        let mut i: u128 = 0;
        while i < n
            invariant
                self.wf(),
                i <= n,
                ids@.len() == i,
                from@ != to@,
                owned_count(old(self).nfts@, from@) >= n,
                self.pool@ == old(self).pool@,
                self.nft_count == old(self).nft_count,
                self.nfts@.len() == old(self).nfts@.len(),
                forall|j: int|
                    0 <= j < old(self).nfts@.len() && !held_by(#[trigger] old(self).nfts@[j], from@)
                        ==> self.nfts@[j] == old(self).nfts@[j],
                forall|k: int|
                    0 <= k < ids@.len() ==> 1 <= #[trigger] ids@[k] <= self.nfts@.len() && held_by(
                        self.nfts@[ids@[k] - 1],
                        to@,
                    ) && held_by(old(self).nfts@[ids@[k] - 1], from@),
                live_count(self.nfts@) == live_count(old(self).nfts@),
                forall|a: Seq<char>|
                    #![trigger owned_count(self.nfts@, a)]
                    owned_count(self.nfts@, a) == owned_count(old(self).nfts@, a) + (if a
                        == to@ {
                        i as int
                    } else {
                        0int
                    }) - (if a == from@ {
                        i as int
                    } else {
                        0int
                    }),
            decreases n - i,
        {
            let ghost before = self.nfts@;
            assert(owned_count(before, from@) > 0);
            let ghost ids0 = ids@;
            let id = self.move_token(from, to);
            ids.push(id);
            proof {
                assert(held_by(old(self).nfts@[id - 1], from@)) by {
                    if !held_by(old(self).nfts@[id - 1], from@) {
                        assert(before[id - 1] == old(self).nfts@[id - 1]);
                    }
                }
                assert forall|k: int|
                    0 <= k < ids@.len() implies 1 <= #[trigger] ids@[k] <= self.nfts@.len()
                    && held_by(self.nfts@[ids@[k] - 1], to@) by {
                    if k < ids0.len() {
                        assert(ids@[k] == ids0[k]);
                    }
                }
                assert forall|a: Seq<char>|
                    #![trigger owned_count(self.nfts@, a)]
                    owned_count(self.nfts@, a) == owned_count(old(self).nfts@, a) + (if a
                        == to@ {
                        (i + 1) as int
                    } else {
                        0int
                    }) - (if a == from@ {
                        (i + 1) as int
                    } else {
                        0int
                    }) by {
                    assert(owned_count(before, a) == owned_count(old(self).nfts@, a) + (if a
                        == to@ {
                        i as int
                    } else {
                        0int
                    }) - (if a == from@ {
                        i as int
                    } else {
                        0int
                    }));
                }
            }
            i = i + 1;
        }
        ids
    }
}

/// No identifier waits in the pool while some address owns it.
pub proof fn no_double_ownership(reg: TokenRegistry)
    requires
        reg.wf(),
    ensures
        forall|i: int, a: Seq<char>|
            #![trigger reg.pool@[i], held_by(reg.nfts@[reg.pool@[i] - 1], a)]
            0 <= i < reg.pool@.len() ==> 1 <= reg.pool@[i] <= reg.nft_count && !held_by(
                reg.nfts@[reg.pool@[i] - 1],
                a,
            ),
{
    assert forall|i: int, a: Seq<char>|
        #![trigger reg.pool@[i], held_by(reg.nfts@[reg.pool@[i] - 1], a)]
        0 <= i < reg.pool@.len() implies 1 <= reg.pool@[i]
        <= reg.nft_count && !held_by(reg.nfts@[reg.pool@[i] - 1], a) by {
        assert(reg.pooled_ok(reg.pool@[i]));
    }
}

/// Once a token has been reclaimed into the pool, the next retrieve-or-mint
/// hands out that same identifier instead of minting a new one.
pub proof fn pool_reuse_precedence(before: TokenRegistry, after: TokenRegistry, id: u128)
    requires
        after.pool@ == before.pool@.push(id),
        after.nft_count == before.nft_count,
    ensures
        after.next_token_id() == id,
        after.next_token_id() != after.nft_count + 1 || id == after.nft_count + 1,
{
}

} // verus!
