use vstd::prelude::*;

use crate::error::{ContractError, InvalidField};
use vstd::utf8::encode_utf8;

verus! {

/// An initial balance, in whole units.
#[derive(Debug, PartialEq, Eq)]
pub struct Cw20Coin {
    pub address: String,
    pub amount: u128,
}

/// The parameters of a new contract instance.
#[derive(Debug)]
pub struct InstantiateMsg {
    pub name: String,
    pub symbol: String,
    pub decimals: u8,
    pub initial_balances: Vec<Cw20Coin>,
    pub admin: String,
    pub base_token_uri: Option<String>,
}

/// A name takes 3 to 50 bytes of UTF-8.
pub open spec fn valid_name(name: Seq<char>) -> bool {
    3 <= encode_utf8(name).len() <= 50
}

/// A symbol byte is an ASCII letter or `-`.
pub open spec fn symbol_byte(b: u8) -> bool {
    b == 45 || (65 <= b <= 90) || (97 <= b <= 122)
}

/// A symbol takes 3 to 12 bytes, each a letter or `-`.
pub open spec fn valid_symbol(symbol: Seq<char>) -> bool {
    let bytes = encode_utf8(symbol);
    &&& 3 <= bytes.len() <= 12
    &&& forall|i: int| 0 <= i < bytes.len() ==> symbol_byte(#[trigger] bytes[i])
}

impl InstantiateMsg {
    /// The first field that fails validation, if any.
    pub open spec fn first_invalid(&self) -> Option<InvalidField> {
        if !valid_name(self.name@) {
            Some(InvalidField::Name)
        } else if !valid_symbol(self.symbol@) {
            Some(InvalidField::Symbol)
        } else if self.decimals > 18 {
            Some(InvalidField::Decimals)
        } else {
            None
        }
    }

    /// Checks name, symbol and decimals, in that order.
    pub fn validate(&self) -> (r: Result<(), ContractError>)
        ensures
            r is Ok <==> self.first_invalid() is None,
            self.first_invalid() matches Some(f) ==> r == Err::<(), ContractError>(
                ContractError::InvalidInput { field: f },
            ),
    {
        if !self.has_valid_name() {
            return Err(ContractError::InvalidInput { field: InvalidField::Name });
        }
        if !self.has_valid_symbol() {
            return Err(ContractError::InvalidInput { field: InvalidField::Symbol });
        }
        if self.decimals > 18 {
            return Err(ContractError::InvalidInput { field: InvalidField::Decimals });
        }
        Ok(())
    }

    fn has_valid_name(&self) -> (r: bool)
        ensures
            r == valid_name(self.name@),
    {
        let bytes = self.name.as_str().as_bytes();
        let n = bytes.len();
        n >= 3 && n <= 50
    }

    fn has_valid_symbol(&self) -> (r: bool)
        ensures
            r == valid_symbol(self.symbol@),
    {
        let bytes = self.symbol.as_str().as_bytes();
        let n = bytes.len();
        if n < 3 || n > 12 {
            return false;
        }
        let mut i: usize = 0;
        while i < n
            invariant
                n == bytes@.len(),
                bytes@ == encode_utf8(self.symbol@),
                3 <= n <= 12,
                i <= n,
                forall|j: int| 0 <= j < i ==> symbol_byte(#[trigger] bytes@[j]),
            decreases n - i,
        {
            let b = bytes[i];
            if b != 45 && (b < 65 || b > 90) && (b < 97 || b > 122) {
                return false;
            }
            i = i + 1;
        }
        true
    }
}

/// The operations that change state.
#[derive(Debug)]
pub enum ExecuteMsg {
    /// Moves `amount` sub-units to `recipient`, with the tokens that follow.
    Transfer { recipient: String, amount: u128 },
}

/// The read-only operations.
#[derive(Debug)]
pub enum QueryMsg {
    /// The balance of an address, zero if unset.
    Balance { address: String },
    /// Name, symbol, decimals, supply, admin and units.
    TokenInfo {},
    /// How many token identifiers have been minted.
    NftNumTokens {},
    /// The ceiling on tokens owned at once.
    MaxNftSupply {},
    /// Whether an address is transfer-exempt.
    Cw721TransferExempt { address: String },
}

} // verus!
