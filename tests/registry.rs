use cw404::error::ContractError;
use cw404::registry::{decimal, make_token_uri, nft_owner_idx, Approval, BlockInfo, Expiration, NftInfo, TokenRegistry};
use cw404::contract::{instantiate, execute_transfer};
use cw404::msg::{Cw20Coin, InstantiateMsg};
use cw404::query::query_owner_of;

fn s(v: &str) -> String {
    v.to_string()
}

#[test]
fn reclaimed_id_is_retrieved_next() {
    let mut reg = TokenRegistry::new();
    let base = Some(s("u/"));
    assert_eq!(reg.retrieve_or_mint(&s("bob"), &base), Ok(1));
    assert_eq!(reg.retrieve_or_mint(&s("bob"), &base), Ok(2));
    assert_eq!(reg.reclaim(&s("bob")), 1);
    assert_eq!(reg.pool, vec![1]);
    assert_eq!(reg.retrieve_or_mint(&s("carol"), &base), Ok(1));
    assert_eq!(reg.nft_count, 2);
    assert_eq!(reg.retrieve_or_mint(&s("carol"), &base), Ok(3));
    assert_eq!(reg.nft_count, 3);
}

#[test]
fn last_reclaimed_is_first_reused() {
    let mut reg = TokenRegistry::new();
    let base = None;
    for _ in 0..3 {
        reg.retrieve_or_mint(&s("bob"), &base).unwrap();
    }
    assert_eq!(reg.reclaim(&s("bob")), 1);
    assert_eq!(reg.reclaim(&s("bob")), 2);
    assert_eq!(reg.retrieve_or_mint(&s("carol"), &base), Ok(2));
    assert_eq!(reg.retrieve_or_mint(&s("carol"), &base), Ok(1));
    assert!(reg.nfts[0].as_ref().unwrap().token_uri.is_none());
}

#[test]
fn move_token_clears_approvals() {
    let mut reg = TokenRegistry::new();
    reg.retrieve_or_mint(&s("bob"), &None).unwrap();
    reg.nfts[0].as_mut().unwrap().approvals.push(Approval { spender: s("eve"), expires: Expiration::Never });
    assert_eq!(reg.move_token(&s("bob"), &s("carol")), 1);
    let t = reg.nfts[0].as_ref().unwrap();
    assert_eq!(t.owner, "carol");
    assert!(t.approvals.is_empty());
}

#[test]
fn token_uri_appends_decimal_id() {
    assert_eq!(make_token_uri(&Some(s("ipfs://x/")), 1), Some(s("ipfs://x/1")));
    assert_eq!(make_token_uri(&Some(s("ipfs://x/")), 1234567), Some(s("ipfs://x/1234567")));
    assert_eq!(make_token_uri(&Some(s("")), 0), Some(s("0")));
    assert_eq!(make_token_uri(&None, 5), None);
}

#[test]
fn expiration_rules() {
    let b = BlockInfo { height: 100, time_nanos: 5_000 };
    assert!(Expiration::AtHeight(100).is_expired(&b));
    assert!(!Expiration::AtHeight(101).is_expired(&b));
    assert!(Expiration::AtTime(4_999).is_expired(&b));
    assert!(!Expiration::AtTime(5_001).is_expired(&b));
    assert!(!Expiration::Never.is_expired(&b));
}

#[test]
fn owner_of_filters_expired_approvals() {
    let mut st = instantiate(InstantiateMsg {
        name: s("Orai Pandora"),
        symbol: s("OPAN"),
        decimals: 6,
        initial_balances: vec![Cw20Coin { address: s("admin"), amount: 5 }],
        admin: s("admin"),
        base_token_uri: None,
    })
    .unwrap();
    execute_transfer(&mut st, &s("admin"), &s("bob"), 1_000_000).unwrap();
    let approvals = &mut st.registry.nfts[0].as_mut().unwrap().approvals;
    approvals.push(Approval { spender: s("old"), expires: Expiration::AtHeight(10) });
    approvals.push(Approval { spender: s("new"), expires: Expiration::AtHeight(1000) });
    let block = BlockInfo { height: 50, time_nanos: 0 };
    let r = query_owner_of(&st, &block, 1, false).unwrap();
    assert_eq!(r.owner, "bob");
    assert_eq!(r.approvals.len(), 1);
    assert_eq!(r.approvals[0].spender, "new");
    let r = query_owner_of(&st, &block, 1, true).unwrap();
    assert_eq!(r.approvals.len(), 2);
    assert_eq!(query_owner_of(&st, &block, 2, true).err(), Some(ContractError::NotFound));
    assert_eq!(query_owner_of(&st, &block, 0, true).err(), Some(ContractError::NotFound));
}

#[test]
fn owner_index_key_is_owner() {
    let info = NftInfo { owner: s("bob"), approvals: vec![], token_uri: None };
    assert_eq!(nft_owner_idx(b"1", &info), "bob");
}

#[test]
fn exhausted_counter_reports_overflow() {
    let mut reg = TokenRegistry::new();
    reg.nft_count = u64::MAX;
    assert_eq!(reg.retrieve_or_mint(&s("bob"), &None), Err(ContractError::Overflow));
    assert_eq!(reg.nft_count, u64::MAX);
    assert!(reg.nfts.is_empty());
}

#[test]
fn decimal_digits() {
    assert_eq!(decimal(0), "0");
    assert_eq!(decimal(9), "9");
    assert_eq!(decimal(10), "10");
    assert_eq!(decimal(907), "907");
    assert_eq!(decimal(u128::MAX), u128::MAX.to_string());
}
