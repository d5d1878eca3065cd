use cw404::contract::{execute, execute_transfer, instantiate, ContractState};
use cw404::error::ContractError;
use cw404::msg::{Cw20Coin, ExecuteMsg, InstantiateMsg};
use cw404::query::{query_balance, query_nft_num_token, query_owner_of, query_tokens};
use cw404::registry::BlockInfo;

fn s(v: &str) -> String {
    v.to_string()
}

fn instantiate_with(balances: Vec<(&str, u128)>) -> ContractState {
    instantiate(InstantiateMsg {
        name: s("Orai Pandora"),
        symbol: s("OPAN"),
        decimals: 6,
        initial_balances: balances
            .into_iter()
            .map(|(a, n)| Cw20Coin { address: s(a), amount: n })
            .collect(),
        admin: s("admin"),
        base_token_uri: Some(s("ipfs://pandora/")),
    })
    .unwrap()
}

/// Six decimals; the admin (exempt) starts with `admin_units` whole units and
/// sends each listed holder its units, which mints their tokens in order.
fn setup(admin_units: u128, others: Vec<(&str, u128)>) -> ContractState {
    let mut st = instantiate_with(vec![("admin", admin_units)]);
    for (a, n) in others {
        execute_transfer(&mut st, &s("admin"), &s(a), n * 1_000_000).unwrap();
    }
    st
}

fn balance(st: &ContractState, a: &str) -> u128 {
    query_balance(st, &s(a)).balance
}

fn owned(st: &ContractState, a: &str) -> Vec<u128> {
    query_tokens(st, &s(a))
}

/// The same as `owned`, read token by token through `query_owner_of`.
fn owned_by_scan(st: &ContractState, a: &str) -> Vec<u128> {
    let block = BlockInfo { height: 1, time_nanos: 1 };
    let mut ids = vec![];
    for id in 1..=(st.registry.nfts.len() as u128) {
        if let Ok(r) = query_owner_of(st, &block, id, true) {
            if r.owner == a {
                ids.push(id);
            }
        }
    }
    ids
}

fn total(st: &ContractState) -> u128 {
    st.ledger.accounts.iter().map(|a| a.balance).sum()
}

/// A non-exempt sender holding 1_500_000 sub-units.
fn with_sender() -> ContractState {
    let mut st = setup(10, vec![]);
    let r = execute_transfer(&mut st, &s("admin"), &s("sender"), 1_500_000).unwrap();
    assert_eq!(r.assigned, vec![1]);
    st
}

#[test]
fn boundary_crossing_fraction_reclaims() {
    let mut st = with_sender();
    let r = execute_transfer(&mut st, &s("sender"), &s("recipient"), 600_000).unwrap();
    assert_eq!(balance(&st, "sender"), 900_000);
    assert_eq!(balance(&st, "recipient"), 600_000);
    assert_eq!(r.moved.len(), 0);
    assert_eq!(r.reclaimed, vec![1]);
    assert_eq!(r.assigned.len(), 0);
    assert!(owned(&st, "sender").is_empty());
    assert!(owned(&st, "recipient").is_empty());
    assert_eq!(st.registry.pool, vec![1]);
}

#[test]
fn boundary_crossing_whole_unit_arrives() {
    let mut st = with_sender();
    let r = execute_transfer(&mut st, &s("sender"), &s("recipient"), 1_000_000).unwrap();
    assert_eq!(balance(&st, "sender"), 500_000);
    assert_eq!(balance(&st, "recipient"), 1_000_000);
    assert_eq!(r.moved, vec![1]);
    assert_eq!(r.reclaimed.len(), 0);
    assert_eq!(r.assigned.len(), 0);
    assert!(owned(&st, "sender").is_empty());
    assert_eq!(owned(&st, "recipient"), vec![1]);
}

#[test]
fn fractions_completing_a_unit_assign_from_pool() {
    let mut st = with_sender();
    execute_transfer(&mut st, &s("sender"), &s("recipient"), 600_000).unwrap();
    let r = execute_transfer(&mut st, &s("sender"), &s("recipient"), 400_000).unwrap();
    assert_eq!(balance(&st, "recipient"), 1_000_000);
    assert_eq!(r.reclaimed.len(), 0);
    assert_eq!(r.assigned, vec![1]);
    assert_eq!(owned(&st, "recipient"), vec![1]);
    assert_eq!(query_nft_num_token(&st).count, 1);
}

#[test]
fn self_transfer_changes_nothing() {
    let mut st = with_sender();
    let before_ids = owned(&st, "sender");
    let r = execute_transfer(&mut st, &s("sender"), &s("sender"), 1_200_000).unwrap();
    assert_eq!(balance(&st, "sender"), 1_500_000);
    assert_eq!(owned(&st, "sender"), before_ids);
    assert!(r.moved.is_empty() && r.reclaimed.is_empty() && r.assigned.is_empty());
    assert_eq!(query_nft_num_token(&st).count, 1);
}

#[test]
fn exempt_to_exempt_touches_no_token() {
    let mut st = setup(10, vec![("bob", 3)]);
    let nfts = st.registry.nfts.len();
    let pool = st.registry.pool.clone();
    let r = execute_transfer(&mut st, &s("admin"), &s("admin"), 2_500_000).unwrap();
    assert!(r.assigned.is_empty() && r.reclaimed.is_empty() && r.moved.is_empty());
    assert_eq!(st.registry.nfts.len(), nfts);
    assert_eq!(st.registry.pool, pool);
    assert_eq!(balance(&st, "admin"), 7_000_000);
}

#[test]
fn exempt_sender_mints_for_recipient() {
    let mut st = setup(10, vec![]);
    let r = execute_transfer(&mut st, &s("admin"), &s("bob"), 3_700_000).unwrap();
    assert_eq!(r.assigned, vec![1, 2, 3]);
    assert!(r.reclaimed.is_empty());
    assert_eq!(owned(&st, "bob"), vec![1, 2, 3]);
    assert_eq!(balance(&st, "admin"), 6_300_000);
}

#[test]
fn exempt_recipient_reclaims_lowest_first() {
    let mut st = setup(10, vec![("bob", 3)]);
    assert_eq!(owned(&st, "bob"), vec![1, 2, 3]);
    let r = execute_transfer(&mut st, &s("bob"), &s("admin"), 1_500_000).unwrap();
    assert_eq!(r.reclaimed, vec![1, 2]);
    assert!(r.assigned.is_empty());
    assert_eq!(owned(&st, "bob"), vec![3]);
    assert!(owned(&st, "admin").is_empty());
    assert_eq!(st.registry.pool, vec![1, 2]);
}

#[test]
fn direct_transfer_moves_lowest_tokens() {
    let mut st = setup(10, vec![("bob", 3), ("carol", 1)]);
    let r = execute_transfer(&mut st, &s("bob"), &s("carol"), 2_000_000).unwrap();
    assert_eq!(r.moved, vec![1, 2]);
    assert_eq!(owned(&st, "bob"), vec![3]);
    assert_eq!(owned(&st, "carol"), vec![1, 2, 4]);
}

#[test]
fn pool_is_reused_before_minting() {
    let mut st = setup(10, vec![("bob", 2)]);
    execute_transfer(&mut st, &s("bob"), &s("admin"), 1_000_000).unwrap();
    assert_eq!(st.registry.pool, vec![1]);
    let r = execute_transfer(&mut st, &s("admin"), &s("carol"), 1_000_000).unwrap();
    assert_eq!(r.assigned, vec![1]);
    assert_eq!(query_nft_num_token(&st).count, 2);
    assert!(st.registry.pool.is_empty());
}

#[test]
fn insufficient_balance_leaves_state() {
    let mut st = setup(10, vec![("bob", 1)]);
    let r = execute_transfer(&mut st, &s("bob"), &s("carol"), 1_000_001);
    assert_eq!(r.err(), Some(ContractError::InsufficientBalance));
    assert_eq!(balance(&st, "bob"), 1_000_000);
    assert_eq!(owned(&st, "bob"), vec![1]);
    let r = execute_transfer(&mut st, &s("nobody"), &s("carol"), 1);
    assert_eq!(r.err(), Some(ContractError::InsufficientBalance));
}

#[test]
fn zero_amount_is_a_no_op() {
    let mut st = setup(10, vec![("bob", 1)]);
    let r = execute_transfer(&mut st, &s("bob"), &s("carol"), 0).unwrap();
    assert!(r.moved.is_empty() && r.reclaimed.is_empty() && r.assigned.is_empty());
    assert_eq!(balance(&st, "carol"), 0);
}

#[test]
fn conservation_over_transfers() {
    let mut st = setup(10, vec![("bob", 3), ("carol", 2)]);
    let steps: Vec<(&str, &str, u128)> = vec![
        ("admin", "bob", 1_250_000),
        ("bob", "carol", 2_600_000),
        ("carol", "dave", 999_999),
        ("dave", "bob", 999_999),
        ("carol", "admin", 3_000_000),
        ("bob", "bob", 100),
    ];
    for (from, to, amt) in steps {
        execute_transfer(&mut st, &s(from), &s(to), amt).unwrap();
        assert_eq!(total(&st), 10_000_000);
        let outstanding = st.registry.nft_count as u128 - st.registry.pool.len() as u128;
        assert!(outstanding <= st.max_nft_supply);
        for who in ["bob", "carol", "dave"] {
            assert_eq!(owned(&st, who).len() as u128, balance(&st, who) / 1_000_000);
            assert_eq!(owned(&st, who), owned_by_scan(&st, who));
        }
        assert!(owned(&st, "admin").is_empty());
    }
}

#[test]
fn execute_dispatches_transfer() {
    let mut st = setup(10, vec![]);
    let r = execute(&mut st, &s("admin"), ExecuteMsg::Transfer { recipient: s("bob"), amount: 2_000_000 })
        .unwrap();
    assert_eq!(r.from, "admin");
    assert_eq!(r.to, "bob");
    assert_eq!(r.amount, 2_000_000);
    assert_eq!(r.assigned, vec![1, 2]);
}

#[test]
fn minted_tokens_carry_their_uri() {
    let mut st = setup(20, vec![]);
    execute_transfer(&mut st, &s("admin"), &s("bob"), 12_000_000).unwrap();
    let uri = st.registry.nfts[11].as_ref().unwrap().token_uri.clone();
    assert_eq!(uri, Some(s("ipfs://pandora/12")));
    let first = st.registry.nfts[0].as_ref().unwrap().token_uri.clone();
    assert_eq!(first, Some(s("ipfs://pandora/1")));
}

#[test]
fn unbacked_genesis_holder_moves_only_what_it_owns() {
    let mut st = instantiate_with(vec![("admin", 5), ("bob", 2)]);
    assert!(owned(&st, "bob").is_empty());
    let r = execute_transfer(&mut st, &s("bob"), &s("carol"), 1_500_000).unwrap();
    assert!(r.moved.is_empty());
    assert!(r.reclaimed.is_empty());
    assert_eq!(r.assigned, vec![1]);
    assert_eq!(owned(&st, "carol"), vec![1]);
    assert!(owned(&st, "bob").is_empty());
    assert_eq!(balance(&st, "bob"), 500_000);
    assert_eq!(query_nft_num_token(&st).count, 1);
}

#[test]
fn partly_backed_sender_reclaims_what_it_has() {
    let mut st = instantiate_with(vec![("admin", 5), ("bob", 2)]);
    execute_transfer(&mut st, &s("admin"), &s("bob"), 1_000_000).unwrap();
    assert_eq!(owned(&st, "bob"), vec![1]);
    let r = execute_transfer(&mut st, &s("bob"), &s("admin"), 2_000_000).unwrap();
    assert_eq!(r.reclaimed, vec![1]);
    assert!(owned(&st, "bob").is_empty());
    assert_eq!(st.registry.pool, vec![1]);
}
