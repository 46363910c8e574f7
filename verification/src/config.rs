use crate::address::{
    address_of, bitmap_extension_address, bitmap_extension_seeds, canonical_mints, canonical_pair,
    config_address, config_seeds, derived, pool_address, resolved_pool, Address,
};
use crate::error::Error;
use vstd::prelude::*;

verus! {

/// What a client run is configured with, and the addresses that follow from it.
#[derive(Clone, Debug, PartialEq, Eq)]
pub struct ClientConfig {
    pub http_url: String,
    pub ws_url: String,
    pub payer_path: String,
    pub admin_path: String,
    pub raydium_v3_program: Address,
    /// The slippage tolerance, as the bit pattern of a 64-bit float. The
    /// library carries it and never reads it.
    pub slippage_bits: u64,
    pub amm_config_key: Address,
    pub mint0: Option<Address>,
    pub mint1: Option<Address>,
    pub pool_id_account: Option<Address>,
    pub tickarray_bitmap_extension: Option<Address>,
    pub amm_config_index: u16,
}

/// The address of the fee configuration with the given index.
pub open spec fn config_key(program_id: Seq<u8>, config_index: u16) -> Result<Seq<u8>, Error> {
    address_of(derived(program_id, config_seeds(config_index)))
}

/// The address of the pool of two mints under the fee configuration with the given index.
pub open spec fn pool_key(program_id: Seq<u8>, config_index: u16, a: Seq<u8>, b: Seq<u8>) -> Result<
    Seq<u8>,
    Error,
> {
    match config_key(program_id, config_index) {
        Ok(config) => address_of(resolved_pool(program_id, config, a, b)),
        Err(e) => Err(e),
    }
}

/// The address of the bitmap extension of that pool.
pub open spec fn extension_key(
    program_id: Seq<u8>,
    config_index: u16,
    a: Seq<u8>,
    b: Seq<u8>,
) -> Result<Seq<u8>, Error> {
    match pool_key(program_id, config_index, a, b) {
        Ok(pool) => address_of(derived(program_id, bitmap_extension_seeds(pool))),
        Err(e) => Err(e),
    }
}

/// The pool address does not depend on the order in which the mints are configured.
pub proof fn lemma_pool_key_symmetric(program_id: Seq<u8>, config_index: u16, a: Seq<u8>, b: Seq<u8>)
    ensures
        pool_key(program_id, config_index, a, b) == pool_key(program_id, config_index, b, a),
        extension_key(program_id, config_index, a, b) == extension_key(
            program_id,
            config_index,
            b,
            a,
        ),
{
    crate::address::lemma_canonical_pair_symmetric(a, b);
}

/// Whether every address that a configuration asks for can be derived.
pub open spec fn resolvable(
    program_id: Seq<u8>,
    config_index: u16,
    mint0: Option<Address>,
    mint1: Option<Address>,
) -> bool {
    &&& config_key(program_id, config_index) is Ok
    &&& match (mint0, mint1) {
        (Some(a), Some(b)) => extension_key(program_id, config_index, a@, b@) is Ok,
        _ => true,
    }
}

impl ClientConfig {
    /// Completes a configuration: derives the address of the fee
    /// configuration and, where both mints are given, puts them in canonical
    /// order and derives the addresses of their pool and of its bitmap
    /// extension.
    pub fn resolve(
        http_url: String,
        ws_url: String,
        payer_path: String,
        admin_path: String,
        raydium_v3_program: Address,
        slippage_bits: u64,
        mint0: Option<Address>,
        mint1: Option<Address>,
        amm_config_index: u16,
    ) -> (config: Result<ClientConfig, Error>)
        requires
            http_url@.len() > 0,
            ws_url@.len() > 0,
            payer_path@.len() > 0,
            admin_path@.len() > 0,
        ensures
            config is Ok <==> resolvable(raydium_v3_program@, amm_config_index, mint0, mint1),
            config matches Ok(c) ==> {
                &&& c.http_url@ == http_url@
                &&& c.ws_url@ == ws_url@
                &&& c.payer_path@ == payer_path@
                &&& c.admin_path@ == admin_path@
                &&& c.raydium_v3_program == raydium_v3_program
                &&& c.slippage_bits == slippage_bits
                &&& c.amm_config_index == amm_config_index
                &&& Ok::<Seq<u8>, Error>(c.amm_config_key@) == config_key(
                    raydium_v3_program@,
                    amm_config_index,
                )
                &&& match (mint0, mint1) {
                    (Some(a), Some(b)) => {
                        &&& c.mint0 matches Some(m0)
                        &&& c.mint1 matches Some(m1)
                        &&& (m0@, m1@) == canonical_pair(a@, b@)
                        &&& c.pool_id_account matches Some(pool)
                        &&& Ok::<Seq<u8>, Error>(pool@) == pool_key(
                            raydium_v3_program@,
                            amm_config_index,
                            a@,
                            b@,
                        )
                        &&& c.tickarray_bitmap_extension matches Some(extension)
                        &&& Ok::<Seq<u8>, Error>(extension@) == extension_key(
                            raydium_v3_program@,
                            amm_config_index,
                            a@,
                            b@,
                        )
                    },
                    _ => {
                        &&& c.mint0 == mint0
                        &&& c.mint1 == mint1
                        &&& c.pool_id_account is None
                        &&& c.tickarray_bitmap_extension is None
                    },
                }
            },
            config matches Err(e) ==> e == Error::NoViableBump,
    {
        let amm_config_key = match config_address(&raydium_v3_program, amm_config_index) {
            Ok(derived) => derived.address,
            Err(e) => {
                return Err(e);
            },
        };
        assert(Ok::<Seq<u8>, Error>(amm_config_key@) == config_key(
            raydium_v3_program@,
            amm_config_index,
        ));
        let mut ordered0 = mint0;
        let mut ordered1 = mint1;
        let mut pool_id_account: Option<Address> = None;
        let mut tickarray_bitmap_extension: Option<Address> = None;
        match (mint0, mint1) {
            (Some(a), Some(b)) => {
                let (m0, m1) = canonical_mints(&a, &b);
                let pool_outcome = pool_address(&raydium_v3_program, &amm_config_key, &m0, &m1);
                assert(crate::address::outcome_view(pool_outcome) == resolved_pool(
                    raydium_v3_program@,
                    amm_config_key@,
                    a@,
                    b@,
                ));
                let pool = match pool_outcome {
                    Ok(derived) => derived.address,
                    Err(e) => {
                        return Err(e);
                    },
                };
                assert(Ok::<Seq<u8>, Error>(pool@) == pool_key(
                    raydium_v3_program@,
                    amm_config_index,
                    a@,
                    b@,
                ));
                let extension = match bitmap_extension_address(&raydium_v3_program, &pool) {
                    Ok(derived) => derived.address,
                    Err(e) => {
                        return Err(e);
                    },
                };
                ordered0 = Some(m0);
                ordered1 = Some(m1);
                pool_id_account = Some(pool);
                tickarray_bitmap_extension = Some(extension);
            },
            _ => {},
        }
        Ok(
            ClientConfig {
                http_url,
                ws_url,
                payer_path,
                admin_path,
                raydium_v3_program,
                slippage_bits,
                amm_config_key,
                mint0: ordered0,
                mint1: ordered1,
                pool_id_account,
                tickarray_bitmap_extension,
                amm_config_index,
            },
        )
    }
}

/// The addresses of the accounts that belong to one pool.
#[derive(Clone, Debug, PartialEq, Eq, Default)]
pub struct PoolAccounts {
    pub pool_id: Option<Address>,
    pub pool_config: Option<Address>,
    pub pool_observation: Option<Address>,
    pub pool_protocol_positions: Vec<Address>,
    pub pool_personal_positions: Vec<Address>,
    pub pool_tick_arrays: Vec<Address>,
}

/// Calls `std::path::Path::exists`. The answer depends on what is on disk,
/// so nothing is claimed of it.
#[verifier::external_body]
fn path_exists(path: &str) -> (exists: bool) {
    std::path::Path::new(path).exists()
}

/// Whether something exists on disk at the given path, as far as this
/// process can tell. Two calls may differ: the disk may change between them.
pub fn path_is_exist(path: &str) -> (exists: bool) {
    path_exists(path)
}

} // verus!
