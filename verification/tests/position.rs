use anchor_lang::prelude::Pubkey;
use clmm_client::address::Address;
use clmm_client::builder::{
    compute_unit_limit_instruction, compute_unit_price_instruction, transfer_reward_owner_instruction,
    with_budget,
};
use clmm_client::error::Error;
use clmm_client::position::{position_nft_token_info, PositionNftTokenInfo};

fn key(n: u8) -> Address {
    Address::new([n; 32])
}

#[test]
fn a_position_token_is_joined_with_its_position() {
    let program = key(42);
    let (position, _) = Pubkey::find_program_address(
        &[b"position", &key(30).bytes],
        &Pubkey::new_from_array(program.bytes),
    );
    assert_eq!(
        position_nft_token_info(&program, &key(31), &key(23), &key(30), 1, 0),
        Ok(Some(PositionNftTokenInfo {
            key: key(31),
            program: key(23),
            position: Address::new(position.to_bytes()),
            mint: key(30),
            amount: 1,
            decimals: 0,
        }))
    );
}

#[test]
fn other_token_accounts_hold_no_position() {
    let program = key(42);
    assert_eq!(position_nft_token_info(&program, &key(31), &key(23), &key(30), 0, 0), Ok(None));
    assert_eq!(position_nft_token_info(&program, &key(31), &key(23), &key(30), 2, 0), Ok(None));
    assert_eq!(position_nft_token_info(&program, &key(31), &key(23), &key(30), 1, 6), Ok(None));
    assert_eq!(
        position_nft_token_info(&program, &key(31), &key(23), &key(30), u64::MAX, 255),
        Ok(None)
    );
}

#[test]
fn the_compute_budget_is_set_by_tag_and_number() {
    let limit = compute_unit_limit_instruction(&key(90), 1_400_000);
    assert_eq!(limit.program_id, key(90));
    assert!(limit.accounts.is_empty());
    assert_eq!(limit.data, vec![2, 0xc0, 0x5c, 0x15, 0x00]);
    let price = compute_unit_price_instruction(&key(90), 1);
    assert_eq!(price.program_id, key(90));
    assert!(price.accounts.is_empty());
    assert_eq!(price.data, vec![3, 1, 0, 0, 0, 0, 0, 0, 0]);
    assert_eq!(
        compute_unit_price_instruction(&key(90), u64::MAX).data,
        vec![3, 255, 255, 255, 255, 255, 255, 255, 255]
    );
}

#[test]
fn the_budget_instruction_comes_first() {
    let action = transfer_reward_owner_instruction(&key(42), &key(20), &key(9), &key(80));
    let budget = compute_unit_price_instruction(&key(90), 5);
    assert_eq!(with_budget(None, action.clone()), vec![action.clone()]);
    assert_eq!(
        with_budget(Some(budget.clone()), action.clone()),
        vec![budget, action]
    );
}

#[test]
fn every_failure_has_its_message() {
    assert_eq!(Error::NoViableBump.message(), "no viable bump seed");
    assert_eq!(Error::UnknownDiscriminator.message(), "unknown discriminator");
    assert_eq!(Error::InvalidTickRange.message(), "invalid tick range");
    assert_eq!(Error::MissingAccount.message(), "missing account");
    assert_eq!(Error::SlippageExceeded.message(), "slippage exceeded");
    assert_eq!(Error::ZeroAmount.message(), "zero amount");
}
