use vstd::prelude::*;

use crate::contract::ContractState;
use crate::error::ContractError;
use crate::msg::QueryMsg;
use crate::ledger::lemma_entitlement_of;
use crate::registry::{expired_at, owned_ids, Approval, BlockInfo};

verus! {

/// The balance of one address.
#[derive(Debug, PartialEq, Eq)]
pub struct BalanceResponse {
    pub balance: u128,
}

/// The token's metadata.
#[derive(Debug, PartialEq, Eq)]
pub struct TokenInfoResponse {
    pub name: String,
    pub symbol: String,
    pub decimals: u8,
    pub total_supply: u128,
    pub admin: String,
    pub units: u128,
}

/// How many token identifiers have been minted.
#[derive(Debug, PartialEq, Eq)]
pub struct NumTokensResponse {
    pub count: u64,
}

/// The ceiling on tokens owned at once.
#[derive(Debug, PartialEq, Eq)]
pub struct MaxNftSupplyRespone {
    pub max: u128,
}

/// Whether an address is transfer-exempt.
#[derive(Debug, PartialEq, Eq)]
pub struct Cw721TransferExemptResponse {
    pub state: bool,
}

/// The owner of a token and the approvals that are reported.
#[derive(Debug)]
pub struct OwnerOfResponse {
    pub owner: String,
    pub approvals: Vec<Approval>,
}

/// The answer to a query message.
#[derive(Debug)]
pub enum QueryResponse {
    Balance(BalanceResponse),
    TokenInfo(TokenInfoResponse),
    NftNumTokens(NumTokensResponse),
    MaxNftSupply(MaxNftSupplyRespone),
    Cw721TransferExempt(Cw721TransferExemptResponse),
}

pub fn query_balance(state: &ContractState, address: &String) -> (r: BalanceResponse)
    requires
        state.wf(),
    ensures
        r.balance == state.balance_view(address@),
{
    BalanceResponse { balance: state.ledger.balance(address) }
}

pub fn query_token_info(state: &ContractState) -> (r: TokenInfoResponse)
    ensures
        r.name@ == state.token_info.name@,
        r.symbol@ == state.token_info.symbol@,
        r.decimals == state.token_info.decimals,
        r.total_supply == state.token_info.total_supply,
        r.admin@ == state.token_info.admin@,
        r.units == state.token_info.units,
{
    let info = &state.token_info;
    TokenInfoResponse {
        name: info.name.clone(),
        symbol: info.symbol.clone(),
        decimals: info.decimals,
        total_supply: info.total_supply,
        admin: info.admin.clone(),
        units: info.units,
    }
}

pub fn query_nft_num_token(state: &ContractState) -> (r: NumTokensResponse)
    ensures
        r.count == state.registry.nft_count,
{
    NumTokensResponse { count: state.registry.nft_count }
}

pub fn query_max_nft_supply(state: &ContractState) -> (r: MaxNftSupplyRespone)
    ensures
        r.max == state.max_nft_supply,
{
    MaxNftSupplyRespone { max: state.max_nft_supply }
}

pub fn query_cw721_transfer_exempt(state: &ContractState, address: &String) -> (r:
    Cw721TransferExemptResponse)
    requires
        state.wf(),
    ensures
        r.state == state.exempt_view(address@),
{
    Cw721TransferExemptResponse { state: state.ledger.is_exempt(address) }
}

/// The identifiers of the tokens `owner` holds, in increasing order: at most
/// one per whole unit of its balance, none when it is transfer-exempt.
pub fn query_tokens(state: &ContractState, owner: &String) -> (r: Vec<u128>)
    requires
        state.wf(),
    ensures
        r@ == owned_ids(state.registry.nfts@, owner@),
        r@.len() <= if state.exempt_view(owner@) {
            0
        } else {
            state.balance_view(owner@) / state.units()
        },
{
    proof {
        lemma_entitlement_of(state.ledger.accounts@, owner@, state.units());
    }
    state.registry.tokens_of(owner)
}

/// Whether an approval is reported at `block`.
pub open spec fn reported(a: Approval, block: BlockInfo, include_expired: bool) -> bool {
    include_expired || !expired_at(a.expires, block)
}

/// The approvals of `s` that are reported, in order.
pub open spec fn reported_approvals(
    s: Seq<Approval>,
    block: BlockInfo,
    include_expired: bool,
) -> Seq<Approval>
    decreases s.len(),
{
    if s.len() == 0 {
        seq![]
    } else {
        let rest = reported_approvals(s.drop_last(), block, include_expired);
        if reported(s.last(), block, include_expired) {
            rest.push(s.last())
        } else {
            rest
        }
    }
}

fn humanize_approvals(approvals: &Vec<Approval>, block: &BlockInfo, include_expired: bool) -> (r:
    Vec<Approval>)
    ensures
        r@ == reported_approvals(approvals@, *block, include_expired),
{
    let mut out: Vec<Approval> = Vec::new();
    let mut i: usize = 0;
    while i < approvals.len()
        invariant
            i <= approvals@.len(),
            out@ == reported_approvals(approvals@.take(i as int), *block, include_expired),
        decreases approvals@.len() - i,
    {
        let a = &approvals[i];
        proof {
            assert(approvals@.take(i + 1).drop_last() =~= approvals@.take(i as int));
        }
        if include_expired || !a.expires.is_expired(block) {
            out.push(humanize_approval(a));
        }
        i = i + 1;
    }
    proof {
        assert(approvals@.take(approvals@.len() as int) =~= approvals@);
    }
    out
}

fn humanize_approval(approval: &Approval) -> (r: Approval)
    ensures
        r == *approval,
{
    Approval { spender: approval.spender.clone(), expires: approval.expires }
}

/// The owner of token `token_id` and its approvals, the expired ones only
/// when `include_expired`; `NotFound` when no address owns it.
pub fn query_owner_of(
    state: &ContractState,
    block: &BlockInfo,
    token_id: u128,
    include_expired: bool,
) -> (r: Result<OwnerOfResponse, ContractError>)
    ensures
        r is Err <==> !(1 <= token_id <= state.registry.nfts@.len() && state.registry.nfts@[token_id
            - 1] is Some),
        r is Err ==> r == Err::<OwnerOfResponse, ContractError>(ContractError::NotFound),
        r matches Ok(resp) ==> {
            let t = state.registry.nfts@[token_id - 1]->Some_0;
            &&& resp.owner@ == t.owner@
            &&& resp.approvals@ == reported_approvals(t.approvals@, *block, include_expired)
        },
{
    let n = state.registry.nfts.len();
    if token_id == 0 || token_id > n as u128 {
        return Err(ContractError::NotFound);
    }
    let slot = (token_id - 1) as usize;
    match &state.registry.nfts[slot] {
        Some(t) => Ok(
            OwnerOfResponse {
                owner: t.owner.clone(),
                approvals: humanize_approvals(&t.approvals, block, include_expired),
            },
        ),
        None => Err(ContractError::NotFound),
    }
}

/// Answers one query message.
pub fn query(state: &ContractState, msg: QueryMsg) -> (r: QueryResponse)
    requires
        state.wf(),
    ensures
        match msg {
            QueryMsg::Balance { address } => r matches QueryResponse::Balance(b) && b.balance
                == state.balance_view(address@),
            QueryMsg::TokenInfo {  } => r matches QueryResponse::TokenInfo(t) && t.total_supply
                == state.token_info.total_supply && t.units == state.token_info.units
                && t.decimals == state.token_info.decimals && t.name@ == state.token_info.name@
                && t.symbol@ == state.token_info.symbol@ && t.admin@ == state.token_info.admin@,
            QueryMsg::NftNumTokens {  } => r matches QueryResponse::NftNumTokens(c) && c.count
                == state.registry.nft_count,
            QueryMsg::MaxNftSupply {  } => r matches QueryResponse::MaxNftSupply(m) && m.max
                == state.max_nft_supply,
            QueryMsg::Cw721TransferExempt { address } => r matches QueryResponse::Cw721TransferExempt(
                e,
            ) && e.state == state.exempt_view(address@),
        },
{
    match msg {
        QueryMsg::Balance { address } => QueryResponse::Balance(query_balance(state, &address)),
        QueryMsg::TokenInfo {  } => QueryResponse::TokenInfo(query_token_info(state)),
        QueryMsg::NftNumTokens {  } => QueryResponse::NftNumTokens(query_nft_num_token(state)),
        QueryMsg::MaxNftSupply {  } => QueryResponse::MaxNftSupply(query_max_nft_supply(state)),
        QueryMsg::Cw721TransferExempt { address } => QueryResponse::Cw721TransferExempt(
            query_cw721_transfer_exempt(state, &address),
        ),
    }
}

} // verus!
