use crate::address::{
    address_of, address_only, derived, personal_position_address, personal_position_seeds,
    Address,
};
use crate::error::Error;
use vstd::prelude::*;

verus! {

/// A token account that holds the token of a position, joined with the
/// address of the position. It is a snapshot: a wallet's positions are
/// listed anew on each query.
#[derive(Clone, Copy, Debug, PartialEq, Eq)]
pub struct PositionNftTokenInfo {
    /// The token account.
    pub key: Address,
    /// The token program that owns the account.
    pub program: Address,
    /// The position that belongs to the token.
    pub position: Address,
    /// The mint of the token.
    pub mint: Address,
    /// The balance of the account.
    pub amount: u64,
    /// The decimals of the mint.
    pub decimals: u8,
}

/// Whether a token balance is that of a position token: exactly one token of
/// a mint without decimals.
pub open spec fn holds_position_token(amount: u64, decimals: u8) -> bool {
    amount == 1 && decimals == 0
}

/// What a token account comes to when a wallet's positions are listed:
/// nothing where it does not hold a position token, else the account joined
/// with the position derived from its mint.
pub open spec fn position_token(
    program_id: Seq<u8>,
    mint: Seq<u8>,
    amount: u64,
    decimals: u8,
) -> Result<Option<Seq<u8>>, Error> {
    if !holds_position_token(amount, decimals) {
        Ok(None)
    } else {
        match address_of(derived(program_id, personal_position_seeds(mint))) {
            Ok(position) => Ok(Some(position)),
            Err(e) => Err(e),
        }
    }
}

/// Joins a token account with the position that belongs to its token, if it
/// holds the token of a position.
pub fn position_nft_token_info(
    program_id: &Address,
    key: &Address,
    token_program: &Address,
    mint: &Address,
    amount: u64,
    decimals: u8,
) -> (info: Result<Option<PositionNftTokenInfo>, Error>)
    ensures
        match info {
            Ok(Some(found)) => {
                &&& position_token(program_id@, mint@, amount, decimals) == Ok::<
                    Option<Seq<u8>>,
                    Error,
                >(Some(found.position@))
                &&& found.key == *key
                &&& found.program == *token_program
                &&& found.mint == *mint
                &&& found.amount == amount
                &&& found.decimals == decimals
            },
            Ok(None) => position_token(program_id@, mint@, amount, decimals) == Ok::<
                Option<Seq<u8>>,
                Error,
            >(None),
            Err(e) => position_token(program_id@, mint@, amount, decimals) == Err::<
                Option<Seq<u8>>,
                Error,
            >(e),
        },
{
    if amount != 1 || decimals != 0 {
        return Ok(None);
    }
    match address_only(personal_position_address(program_id, mint)) {
        Ok(position) => Ok(
            Some(
                PositionNftTokenInfo {
                    key: *key,
                    program: *token_program,
                    position,
                    mint: *mint,
                    amount,
                    decimals,
                },
            ),
        ),
        Err(e) => Err(e),
    }
}

} // verus!
