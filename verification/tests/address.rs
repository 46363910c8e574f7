use anchor_lang::prelude::Pubkey;
use clmm_client::address::{
    bitmap_extension_address, canonical_mints, config_address, observation_address,
    personal_position_address, pool_address, pool_vault_address, protocol_position_address,
    resolve_pool, tick_array_address, Address, ProgramAddress,
};
use clmm_client::error::Error;

fn program() -> Address {
    Address::new([7u8; 32])
}

fn numbered(first: u8) -> Address {
    let mut bytes = [0u8; 32];
    bytes[0] = first;
    bytes[31] = 9;
    Address::new(bytes)
}

fn expected(seeds: &[&[u8]], program_id: &Address) -> ProgramAddress {
    let (key, bump) = Pubkey::find_program_address(seeds, &Pubkey::new_from_array(program_id.bytes));
    ProgramAddress { address: Address::new(key.to_bytes()), bump }
}

#[test]
fn canonical_mints_orders_the_pair() {
    let low = Address::new([1u8; 32]);
    let high = Address::new([2u8; 32]);
    assert_eq!(canonical_mints(&high, &low), (low, high));
    assert_eq!(canonical_mints(&low, &high), (low, high));
}

#[test]
fn canonical_mints_keeps_equal_mints() {
    let mint = Address::new([5u8; 32]);
    assert_eq!(canonical_mints(&mint, &mint), (mint, mint));
}

#[test]
fn canonical_mints_compares_bytes_from_the_front() {
    let mut a = [0u8; 32];
    let mut b = [0u8; 32];
    a[0] = 1;
    b[31] = 255;
    // b is smaller: its first byte is 0.
    assert_eq!(canonical_mints(&Address::new(a), &Address::new(b)), (Address::new(b), Address::new(a)));
}

#[test]
fn less_than_is_the_order_of_the_keys() {
    let a = numbered(3);
    let b = numbered(200);
    assert!(a.less_than(&b));
    assert!(!b.less_than(&a));
    assert!(!a.less_than(&a));
    assert_eq!(
        a.less_than(&b),
        Pubkey::new_from_array(a.bytes) < Pubkey::new_from_array(b.bytes)
    );
}

#[test]
fn same_tells_addresses_apart() {
    assert!(numbered(1).same(&numbered(1)));
    assert!(!numbered(1).same(&numbered(2)));
}

#[test]
fn from_slice_takes_exactly_32_bytes() {
    assert_eq!(Address::from_slice(&[4u8; 32]), Some(Address::new([4u8; 32])));
    assert_eq!(Address::from_slice(&[4u8; 31]), None);
    assert_eq!(Address::from_slice(&[4u8; 33]), None);
    assert_eq!(Address::new([4u8; 32]).to_vec(), vec![4u8; 32]);
    assert_eq!(Address::zero(), Address::new([0u8; 32]));
}

#[test]
fn derive_matches_the_ledger_derivation() {
    let seeds = vec![b"Lil'".to_vec(), b"Bits".to_vec()];
    let found = clmm_client::address::derive(&program(), &seeds).unwrap();
    assert_eq!(found, expected(&[b"Lil'", b"Bits"], &program()));
    assert_ne!(found.address, program());
}

#[test]
fn derive_is_deterministic() {
    let seeds = vec![b"pool".to_vec(), vec![1, 2, 3]];
    let first = clmm_client::address::derive(&program(), &seeds);
    let second = clmm_client::address::derive(&program(), &seeds);
    assert_eq!(first, second);
    assert!(first.is_ok());
}

#[test]
fn derive_depends_on_the_order_of_the_seeds() {
    let one = clmm_client::address::derive(&program(), &vec![b"a".to_vec(), b"b".to_vec()]).unwrap();
    let other = clmm_client::address::derive(&program(), &vec![b"b".to_vec(), b"a".to_vec()]).unwrap();
    assert_ne!(one.address, other.address);
}

#[test]
fn derive_refuses_a_seed_of_33_bytes() {
    let seeds = vec![vec![0u8; 33]];
    assert_eq!(clmm_client::address::derive(&program(), &seeds), Err(Error::SeedTooLong));
}

#[test]
fn derive_takes_a_seed_of_32_bytes() {
    let seeds = vec![vec![0u8; 32]];
    assert!(clmm_client::address::derive(&program(), &seeds).is_ok());
}

#[test]
fn derive_refuses_sixteen_seeds() {
    let seeds: Vec<Vec<u8>> = (0..16u8).map(|i| vec![i]).collect();
    assert_eq!(clmm_client::address::derive(&program(), &seeds), Err(Error::SeedTooLong));
    let fifteen: Vec<Vec<u8>> = (0..15u8).map(|i| vec![i]).collect();
    assert!(clmm_client::address::derive(&program(), &fifteen).is_ok());
}

#[test]
fn config_address_uses_the_big_endian_index() {
    let found = config_address(&program(), 0x0102).unwrap();
    assert_eq!(found, expected(&[b"amm_config", &[1u8, 2u8]], &program()));
    assert_eq!(found, expected(&[b"amm_config", &0x0102u16.to_be_bytes()], &program()));
}

#[test]
fn pool_address_takes_the_mints_as_given() {
    let config = numbered(50);
    let a = numbered(1);
    let b = numbered(2);
    let found = pool_address(&program(), &config, &a, &b).unwrap();
    assert_eq!(found, expected(&[b"pool", &config.bytes, &a.bytes, &b.bytes], &program()));
    let swapped = pool_address(&program(), &config, &b, &a).unwrap();
    assert_ne!(found, swapped);
}

#[test]
fn resolve_pool_is_symmetric() {
    let config = numbered(50);
    let a = numbered(1);
    let b = numbered(2);
    let one = resolve_pool(&program(), &config, &a, &b).unwrap();
    let other = resolve_pool(&program(), &config, &b, &a).unwrap();
    assert_eq!(one, other);
    assert_eq!(one, expected(&[b"pool", &config.bytes, &a.bytes, &b.bytes], &program()));
}

#[test]
fn bitmap_extension_address_is_derived_from_the_pool() {
    let pool = numbered(77);
    let found = bitmap_extension_address(&program(), &pool).unwrap();
    assert_eq!(
        found,
        expected(&[b"pool_tick_array_bitmap_extension", &pool.bytes], &program())
    );
}

#[test]
fn tick_array_address_uses_the_big_endian_start() {
    let pool = numbered(77);
    let found = tick_array_address(&program(), &pool, 1200).unwrap();
    assert_eq!(found, expected(&[b"tick_array", &pool.bytes, &[0, 0, 4, 176]], &program()));
}

#[test]
fn tick_array_address_of_a_negative_start() {
    let pool = numbered(77);
    let found = tick_array_address(&program(), &pool, -600).unwrap();
    assert_eq!(
        found,
        expected(&[b"tick_array", &pool.bytes, &(-600i32).to_be_bytes()], &program())
    );
    assert_eq!((-600i32).to_be_bytes(), [255, 255, 253, 168]);
}

#[test]
fn position_addresses_are_derived_from_their_seeds() {
    let pool = numbered(77);
    let mint = numbered(13);
    assert_eq!(
        protocol_position_address(&program(), &pool, -120, 240).unwrap(),
        expected(
            &[b"position", &pool.bytes, &(-120i32).to_be_bytes(), &240i32.to_be_bytes()],
            &program()
        )
    );
    assert_eq!(
        personal_position_address(&program(), &mint).unwrap(),
        expected(&[b"position", &mint.bytes], &program())
    );
}

#[test]
fn vault_and_observation_addresses_are_derived_from_their_seeds() {
    let pool = numbered(77);
    let mint = numbered(13);
    assert_eq!(
        pool_vault_address(&program(), &pool, &mint).unwrap(),
        expected(&[b"pool_vault", &pool.bytes, &mint.bytes], &program())
    );
    assert_eq!(
        observation_address(&program(), &pool).unwrap(),
        expected(&[b"observation", &pool.bytes], &program())
    );
}

#[test]
fn error_messages_name_the_failure() {
    assert_eq!(Error::SeedTooLong.message(), "seed too long");
    assert_eq!(Error::TruncatedData.message(), "truncated data");
    assert_eq!(Error::NoInitializedTickArray.message(), "no initialized tick array");
}
