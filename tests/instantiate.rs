use cw404::contract::{instantiate, ContractState};
use cw404::error::{ContractError, InvalidField};
use cw404::msg::{Cw20Coin, InstantiateMsg, QueryMsg};
use cw404::query::{
    query, query_balance, query_cw721_transfer_exempt, query_max_nft_supply,
    query_nft_num_token, query_token_info, query_tokens, BalanceResponse, Cw721TransferExemptResponse,
    MaxNftSupplyRespone, NumTokensResponse, QueryResponse, TokenInfoResponse,
};

fn instantiate_contract(initial_balance_amount: u128) -> ContractState {
    instantiate(InstantiateMsg {
        name: "Orai Pandora".to_string(),
        symbol: "OPAN".to_string(),
        decimals: 6,
        initial_balances: vec![Cw20Coin {
            address: "admin".to_string(),
            amount: initial_balance_amount,
        }],
        admin: "admin".to_string(),
        base_token_uri: None,
    })
    .unwrap()
}

fn message(name: &str, symbol: &str, decimals: u8, balances: Vec<Cw20Coin>) -> InstantiateMsg {
    InstantiateMsg {
        name: name.to_string(),
        symbol: symbol.to_string(),
        decimals,
        initial_balances: balances,
        admin: "admin".to_string(),
        base_token_uri: Some("ipfs://pandora/".to_string()),
    }
}

fn coin(address: &str, amount: u128) -> Cw20Coin {
    Cw20Coin { address: address.to_string(), amount }
}

#[test]
fn initial_balance() {
    let state = instantiate_contract(10000u128);
    let resp = query_balance(&state, &"admin".to_string());
    assert_eq!(resp, BalanceResponse { balance: 10000u128 * 10u128.pow(6) });
}

#[test]
fn initial_token_info() {
    let state = instantiate_contract(10000u128);
    let resp = query_token_info(&state);
    assert_eq!(
        resp,
        TokenInfoResponse {
            name: "Orai Pandora".to_string(),
            symbol: "OPAN".to_string(),
            decimals: 6,
            total_supply: 10000u128 * 10u128.pow(6),
            admin: "admin".to_string(),
            units: 10u128.pow(6),
        }
    );
}

#[test]
fn initial_nft_count_to_eq_zero() {
    let state = instantiate_contract(10000u128);
    let resp = query_nft_num_token(&state);
    assert_eq!(resp, NumTokensResponse { count: 0 });
}

#[test]
fn initial_max_nft() {
    let state = instantiate_contract(10000u128);
    let resp = query_max_nft_supply(&state);
    assert_eq!(resp, MaxNftSupplyRespone { max: 10000u128 });
}

#[test]
fn initial_admin_cw721_exempt() {
    let state = instantiate_contract(10000u128);
    let resp = query_cw721_transfer_exempt(&state, &"admin".to_string());
    assert_eq!(resp, Cw721TransferExemptResponse { state: true });
}

#[test]
fn genesis_exemption_only_admin() {
    let state = instantiate(message("Orai Pandora", "OPAN", 6, vec![coin("admin", 5), coin("bob", 2)]))
        .unwrap();
    assert!(query_cw721_transfer_exempt(&state, &"admin".to_string()).state);
    assert!(!query_cw721_transfer_exempt(&state, &"bob".to_string()).state);
    assert!(!query_cw721_transfer_exempt(&state, &"carol".to_string()).state);
}

#[test]
fn admin_without_initial_balance_is_exempt() {
    let state = instantiate(message("Orai Pandora", "OPAN", 6, vec![coin("bob", 3)])).unwrap();
    assert!(query_cw721_transfer_exempt(&state, &"admin".to_string()).state);
    assert_eq!(query_balance(&state, &"admin".to_string()).balance, 0);
    assert!(!query_cw721_transfer_exempt(&state, &"bob".to_string()).state);
}

#[test]
fn genesis_mints_no_token() {
    let state = instantiate(message("Orai Pandora", "OPAN", 6, vec![coin("admin", 5), coin("bob", 2)]))
        .unwrap();
    assert_eq!(query_balance(&state, &"bob".to_string()).balance, 2_000_000);
    assert_eq!(query_nft_num_token(&state).count, 0);
    assert!(query_tokens(&state, &"bob".to_string()).is_empty());
    assert!(state.registry.pool.is_empty());
    assert_eq!(query_max_nft_supply(&state).max, 7);
    assert_eq!(query_token_info(&state).total_supply, 7_000_000);
}

#[test]
fn zero_decimals_gives_unit_one() {
    let state = instantiate(message("Orai Pandora", "OPAN", 0, vec![coin("admin", 42)])).unwrap();
    assert_eq!(query_token_info(&state).units, 1);
    assert_eq!(query_balance(&state, &"admin".to_string()).balance, 42);
    assert_eq!(query_max_nft_supply(&state).max, 42);
}

#[test]
fn eighteen_decimals_accepted() {
    let state = instantiate(message("Orai Pandora", "OPAN", 18, vec![coin("admin", 3)])).unwrap();
    assert_eq!(query_token_info(&state).units, 1_000_000_000_000_000_000);
    assert_eq!(query_token_info(&state).total_supply, 3_000_000_000_000_000_000);
}

#[test]
fn rejects_short_name() {
    let r = instantiate(message("Or", "OPAN", 6, vec![]));
    assert_eq!(r.err(), Some(ContractError::InvalidInput { field: InvalidField::Name }));
}

#[test]
fn rejects_long_name() {
    let long = "n".repeat(51);
    let r = instantiate(message(&long, "OPAN", 6, vec![]));
    assert_eq!(r.err(), Some(ContractError::InvalidInput { field: InvalidField::Name }));
    let fifty = "n".repeat(50);
    assert!(instantiate(message(&fifty, "OPAN", 6, vec![])).is_ok());
}

#[test]
fn rejects_bad_symbol() {
    let r = instantiate(message("Orai Pandora", "OP4N", 6, vec![]));
    assert_eq!(r.err(), Some(ContractError::InvalidInput { field: InvalidField::Symbol }));
    let r = instantiate(message("Orai Pandora", "OP", 6, vec![]));
    assert_eq!(r.err(), Some(ContractError::InvalidInput { field: InvalidField::Symbol }));
    assert!(instantiate(message("Orai Pandora", "op-AN", 6, vec![])).is_ok());
}

#[test]
fn rejects_too_many_decimals() {
    let r = instantiate(message("Orai Pandora", "OPAN", 19, vec![]));
    assert_eq!(r.err(), Some(ContractError::InvalidInput { field: InvalidField::Decimals }));
}

#[test]
fn rejects_duplicate_initial_balances() {
    let r = instantiate(message("Orai Pandora", "OPAN", 6, vec![coin("bob", 1), coin("bob", 2)]));
    assert_eq!(r.err(), Some(ContractError::DuplicateInitialBalanceses));
}

#[test]
fn rejects_overflowing_supply() {
    let r = instantiate(message("Orai Pandora", "OPAN", 6, vec![coin("admin", u64::MAX as u128)]));
    assert_eq!(r.err(), Some(ContractError::Overflow));
}

#[test]
fn query_dispatch() {
    let state = instantiate_contract(10000u128);
    match query(&state, QueryMsg::Balance { address: "admin".to_string() }) {
        QueryResponse::Balance(b) => assert_eq!(b.balance, 10_000_000_000),
        other => panic!("unexpected {:?}", other),
    }
    match query(&state, QueryMsg::MaxNftSupply {}) {
        QueryResponse::MaxNftSupply(m) => assert_eq!(m.max, 10000),
        other => panic!("unexpected {:?}", other),
    }
    match query(&state, QueryMsg::Cw721TransferExempt { address: "bob".to_string() }) {
        QueryResponse::Cw721TransferExempt(e) => assert!(!e.state),
        other => panic!("unexpected {:?}", other),
    }
}
