use crate::error::Error;
use crate::wire::{be_bytes, be_vec, to_twos, twos_i32};
use anchor_lang::prelude::Pubkey;
use vstd::prelude::*;

verus! {

/// A 32-byte account address.
#[derive(Clone, Copy, Debug, PartialEq, Eq, Hash)]
pub struct Address {
    pub bytes: [u8; 32],
}

impl View for Address {
    type V = Seq<u8>;

    open spec fn view(&self) -> Seq<u8> {
        self.bytes@
    }
}

/// The lexicographic order on byte strings: the first differing byte decides,
/// and a proper prefix comes before what extends it.
pub open spec fn lex_less(a: Seq<u8>, b: Seq<u8>) -> bool
    decreases a.len(),
{
    if a.len() == 0 || b.len() == 0 {
        a.len() < b.len()
    } else if a[0] != b[0] {
        a[0] < b[0]
    } else {
        lex_less(a.drop_first(), b.drop_first())
    }
}

/// No byte string comes before itself, and of two different ones exactly one comes first.
pub proof fn lemma_lex_less_total(a: Seq<u8>, b: Seq<u8>)
    ensures
        !(lex_less(a, b) && lex_less(b, a)),
        !lex_less(a, b) && !lex_less(b, a) ==> a == b,
        a == b ==> !lex_less(a, b),
    decreases a.len(),
{
    if a.len() == 0 || b.len() == 0 {
        if a.len() == 0 && b.len() == 0 {
            assert(a =~= b);
        }
    } else if a[0] != b[0] {
    } else {
        lemma_lex_less_total(a.drop_first(), b.drop_first());
        if !lex_less(a, b) && !lex_less(b, a) {
            assert(a =~= seq![a[0]] + a.drop_first());
            assert(b =~= seq![b[0]] + b.drop_first());
        }
    }
}

/// Dropping a common prefix does not change the order of two byte strings.
pub proof fn lemma_lex_less_skip(a: Seq<u8>, b: Seq<u8>, n: int)
    requires
        0 <= n <= a.len(),
        n <= b.len(),
        forall|j: int| 0 <= j < n ==> a[j] == b[j],
    ensures
        lex_less(a, b) == lex_less(a.subrange(n, a.len() as int), b.subrange(n, b.len() as int)),
    decreases n,
{
    if n == 0 {
        assert(a.subrange(0, a.len() as int) =~= a);
        assert(b.subrange(0, b.len() as int) =~= b);
    } else {
        let a1 = a.drop_first();
        let b1 = b.drop_first();
        lemma_lex_less_skip(a1, b1, n - 1);
        assert(a1.subrange(n - 1, a1.len() as int) =~= a.subrange(n, a.len() as int));
        assert(b1.subrange(n - 1, b1.len() as int) =~= b.subrange(n, b.len() as int));
    }
}

impl Address {
    /// The address with the given bytes.
    pub fn new(bytes: [u8; 32]) -> (address: Address)
        ensures
            address.bytes == bytes,
            address@ == bytes@,
    {
        Address { bytes }
    }

    /// The address whose bytes are all zero.
    pub fn zero() -> (address: Address)
        ensures
            address@ == Seq::new(32, |i: int| 0u8),
    {
        let address = Address { bytes: [0u8; 32] };
        assert(address@ =~= Seq::new(32, |i: int| 0u8));
        address
    }

    /// The address held in a byte string of exactly 32 bytes.
    pub fn from_slice(bytes: &[u8]) -> (address: Option<Address>)
        ensures
            bytes@.len() == 32 <==> address is Some,
            address matches Some(a) ==> a@ == bytes@,
    {
        if bytes.len() != 32 {
            return None;
        }
        let mut out = [0u8; 32];
        let mut i: usize = 0;
        while i < 32
            invariant
                i <= 32,
                bytes@.len() == 32,
                forall|j: int| 0 <= j < i ==> out@[j] == bytes@[j],
            decreases 32 - i,
        {
            out[i] = bytes[i];
            i += 1;
        }
        let address = Address { bytes: out };
        assert(address@ =~= bytes@);
        Some(address)
    }

    /// The 32 bytes of the address.
    pub fn to_vec(&self) -> (bytes: Vec<u8>)
        ensures
            bytes@ == self@,
    {
        let mut out: Vec<u8> = Vec::new();
        let mut i: usize = 0;
        while i < 32
            invariant
                i <= 32,
                out@ == self@.subrange(0, i as int),
            decreases 32 - i,
        {
            out.push(self.bytes[i]);
            assert(out@ =~= self@.subrange(0, i + 1));
            i += 1;
        }
        assert(out@ =~= self@);
        out
    }

    /// Whether two addresses hold the same bytes.
    pub fn same(&self, other: &Address) -> (equal: bool)
        ensures
            equal == (self@ == other@),
    {
        let mut i: usize = 0;
        while i < 32
            invariant
                i <= 32,
                forall|j: int| 0 <= j < i ==> self@[j] == other@[j],
            decreases 32 - i,
        {
            if self.bytes[i] != other.bytes[i] {
                return false;
            }
            i += 1;
        }
        assert(self@ =~= other@);
        true
    }

    /// Whether this address comes before the other in byte order.
    pub fn less_than(&self, other: &Address) -> (less: bool)
        ensures
            less == lex_less(self@, other@),
    {
        let mut i: usize = 0;
        while i < 32
            invariant
                i <= 32,
                forall|j: int| 0 <= j < i ==> self@[j] == other@[j],
            decreases 32 - i,
        {
            if self.bytes[i] != other.bytes[i] {
                proof {
                    lemma_lex_less_skip(self@, other@, i as int);
                }
                return self.bytes[i] < other.bytes[i];
            }
            i += 1;
        }
        proof {
            assert(self@ =~= other@);
            lemma_lex_less_total(self@, other@);
        }
        false
    }
}

/// Two addresses with the same bytes are the same address.
pub proof fn lemma_address_ext(a: Address, b: Address)
    requires
        a@ == b@,
    ensures
        a == b,
{
    assert(a.bytes =~= b.bytes);
}

/// The two mints of a pool in canonical order: the smaller one first.
pub open spec fn canonical_pair(a: Seq<u8>, b: Seq<u8>) -> (Seq<u8>, Seq<u8>) {
    if lex_less(b, a) {
        (b, a)
    } else {
        (a, b)
    }
}

/// The canonical order of a pair does not depend on the order in which it is given.
pub proof fn lemma_canonical_pair_symmetric(a: Seq<u8>, b: Seq<u8>)
    ensures
        canonical_pair(a, b) == canonical_pair(b, a),
        !lex_less(canonical_pair(a, b).1, canonical_pair(a, b).0),
{
    lemma_lex_less_total(a, b);
}

/// Orders a mint pair canonically, without touching the caller's values.
pub fn canonical_mints(a: &Address, b: &Address) -> (pair: (Address, Address))
    ensures
        (pair.0@, pair.1@) == canonical_pair(a@, b@),
        !lex_less(pair.1@, pair.0@),
{
    proof {
        lemma_canonical_pair_symmetric(a@, b@);
    }
    if b.less_than(a) {
        (*b, *a)
    } else {
        (*a, *b)
    }
}

/// A program-derived address with the bump seed that produced it.
#[derive(Clone, Copy, Debug, PartialEq, Eq)]
pub struct ProgramAddress {
    pub address: Address,
    pub bump: u8,
}

impl View for ProgramAddress {
    type V = (Seq<u8>, u8);

    open spec fn view(&self) -> (Seq<u8>, u8) {
        (self.address@, self.bump)
    }
}

/// Most seeds that a derivation takes; the bump seed is added to them.
pub const MAX_SEEDS: usize = 15;

/// Most bytes that one seed may hold.
pub const MAX_SEED_LEN: usize = 32;

/// The address and bump seed that the ledger derives for a program from a
/// list of seeds: the hash of the seeds, the highest bump seed that takes the
/// hash off the curve, the program's address and a marker. `None` where no
/// bump seed does so or the seeds exceed the seed budget.
pub uninterp spec fn program_address(program_id: Seq<u8>, seeds: Seq<Seq<u8>>) -> Option<
    (Seq<u8>, u8),
>;

/// The byte strings held by a list of seeds.
pub open spec fn seed_views(seeds: Seq<Vec<u8>>) -> Seq<Seq<u8>> {
    Seq::new(seeds.len(), |i: int| seeds[i]@)
}

/// Calls `Pubkey::try_find_program_address`. Its result is a function of the
/// program's address and the seeds alone, and the contract gives it its name.
#[verifier::external_body]
fn try_find_program_address(seeds: &Vec<Vec<u8>>, program_id: &Address) -> (found: Option<
    ProgramAddress,
>)
    ensures
        program_address(program_id@, seed_views(seeds@)) == match found {
            Some(derived) => Some(derived@),
            None => None,
        },
{
    let parts: Vec<&[u8]> = seeds.iter().map(|seed| seed.as_slice()).collect();
    let program = Pubkey::new_from_array(program_id.bytes);
    match Pubkey::try_find_program_address(&parts, &program) {
        Some((key, bump)) => Some(ProgramAddress { address: Address { bytes: key.to_bytes() }, bump }),
        None => None,
    }
}

/// Whether a list of seeds stays within the seed budget.
pub open spec fn seeds_within_budget(seeds: Seq<Seq<u8>>) -> bool {
    &&& seeds.len() <= 15
    &&& forall|i: int| 0 <= i < seeds.len() ==> (#[trigger] seeds[i]).len() <= 32
}

/// What a derivation gives: the seed budget is checked first, then the
/// ledger's derivation decides.
pub open spec fn derived(program_id: Seq<u8>, seeds: Seq<Seq<u8>>) -> Result<(Seq<u8>, u8), Error> {
    if !seeds_within_budget(seeds) {
        Err(Error::SeedTooLong)
    } else {
        match program_address(program_id, seeds) {
            Some(pair) => Ok(pair),
            None => Err(Error::NoViableBump),
        }
    }
}

/// The view of the outcome of a derivation.
pub open spec fn outcome_view(outcome: Result<ProgramAddress, Error>) -> Result<
    (Seq<u8>, u8),
    Error,
> {
    match outcome {
        Ok(derived) => Ok(derived@),
        Err(e) => Err(e),
    }
}

/// What the ledger's derivation gave, as the outcome of a derivation within the seed budget.
pub fn derivation_outcome(found: Option<ProgramAddress>) -> (outcome: Result<ProgramAddress, Error>)
    ensures
        outcome == match found {
            Some(derived) => Ok::<ProgramAddress, Error>(derived),
            None => Err::<ProgramAddress, Error>(Error::NoViableBump),
        },
{
    match found {
        Some(derived) => Ok(derived),
        None => Err(Error::NoViableBump),
    }
}

/// Derives the address that a program owns under the given seeds, with its
/// bump seed. The same program and seeds always give the same outcome.
pub fn derive(program_id: &Address, seeds: &Vec<Vec<u8>>) -> (outcome: Result<
    ProgramAddress,
    Error,
>)
    ensures
        outcome_view(outcome) == derived(program_id@, seed_views(seeds@)),
{
    if seeds.len() > MAX_SEEDS {
        return Err(Error::SeedTooLong);
    }
    let mut i: usize = 0;
    while i < seeds.len()
        invariant
            i <= seeds@.len() <= 15,
            forall|j: int| 0 <= j < i ==> (#[trigger] seed_views(seeds@)[j]).len() <= 32,
        decreases seeds@.len() - i,
    {
        if seeds[i].len() > MAX_SEED_LEN {
            assert(seed_views(seeds@)[i as int].len() > 32);
            return Err(Error::SeedTooLong);
        }
        i += 1;
    }
    derivation_outcome(try_find_program_address(seeds, program_id))
}

/// A derivation is deterministic: whatever two calls give for the same
/// program and the same seeds is the same address with the same bump seed, or
/// the same error.
pub proof fn lemma_derive_deterministic(
    program_id: Seq<u8>,
    seeds: Seq<Seq<u8>>,
    first: Result<ProgramAddress, Error>,
    second: Result<ProgramAddress, Error>,
)
    requires
        outcome_view(first) == derived(program_id, seeds),
        outcome_view(second) == derived(program_id, seeds),
    ensures
        first == second,
{
    match (first, second) {
        (Ok(a), Ok(b)) => {
            lemma_address_ext(a.address, b.address);
        },
        _ => {},
    }
}

/// The seed `amm_config`.
pub open spec fn amm_config_seed() -> Seq<u8> {
    seq![97u8, 109, 109, 95, 99, 111, 110, 102, 105, 103]
}

/// The seed `pool`.
pub open spec fn pool_seed() -> Seq<u8> {
    seq![112u8, 111, 111, 108]
}

/// The seed `pool_tick_array_bitmap_extension`.
pub open spec fn bitmap_extension_seed() -> Seq<u8> {
    seq![
        112u8, 111, 111, 108, 95, 116, 105, 99, 107, 95, 97, 114, 114, 97, 121, 95, 98, 105, 116,
        109, 97, 112, 95, 101, 120, 116, 101, 110, 115, 105, 111, 110,
    ]
}

/// The seed `tick_array`.
pub open spec fn tick_array_seed() -> Seq<u8> {
    seq![116u8, 105, 99, 107, 95, 97, 114, 114, 97, 121]
}

/// The seeds of a fee configuration: its seed and its index, most significant byte first.
pub open spec fn config_seeds(config_index: u16) -> Seq<Seq<u8>> {
    seq![amm_config_seed(), be_bytes(config_index as nat, 2)]
}

/// The seeds of a pool: its seed, the configuration's address and the two mints.
pub open spec fn pool_seeds(config: Seq<u8>, mint0: Seq<u8>, mint1: Seq<u8>) -> Seq<Seq<u8>> {
    seq![pool_seed(), config, mint0, mint1]
}

/// The seeds of a pool's bitmap extension: its seed and the pool's address.
pub open spec fn bitmap_extension_seeds(pool: Seq<u8>) -> Seq<Seq<u8>> {
    seq![bitmap_extension_seed(), pool]
}

/// The seeds of a tick array: its seed, the pool's address and the start
/// tick in two's complement, most significant byte first.
pub open spec fn tick_array_seeds(pool: Seq<u8>, start_index: i32) -> Seq<Seq<u8>> {
    seq![tick_array_seed(), pool, be_bytes(to_twos(start_index as int, 4), 4)]
}

/// What resolving a pool gives: the address derived from the mints in canonical order.
pub open spec fn resolved_pool(program_id: Seq<u8>, config: Seq<u8>, a: Seq<u8>, b: Seq<u8>)
    -> Result<(Seq<u8>, u8), Error> {
    derived(program_id, pool_seeds(config, canonical_pair(a, b).0, canonical_pair(a, b).1))
}

/// Resolving a pool does not depend on the order in which its mints are given.
pub proof fn lemma_resolve_pool_symmetric(
    program_id: Seq<u8>,
    config: Seq<u8>,
    a: Seq<u8>,
    b: Seq<u8>,
)
    ensures
        resolved_pool(program_id, config, a, b) == resolved_pool(program_id, config, b, a),
{
    lemma_canonical_pair_symmetric(a, b);
}

/// The address of the fee configuration with the given index.
pub fn config_address(program_id: &Address, config_index: u16) -> (outcome: Result<
    ProgramAddress,
    Error,
>)
    ensures
        outcome_view(outcome) == derived(program_id@, config_seeds(config_index)),
        outcome matches Err(e) ==> e == Error::NoViableBump,
{
    let mut seeds: Vec<Vec<u8>> = Vec::new();
    seeds.push(vec![97u8, 109, 109, 95, 99, 111, 110, 102, 105, 103]);
    seeds.push(be_vec(config_index as u128, 2));
    proof {
        assert(seeds@[0]@ =~= amm_config_seed());
        assert(seed_views(seeds@) =~= config_seeds(config_index));
        crate::wire::lemma_le_bytes_len(config_index as nat, 2);
    }
    derive(program_id, &seeds)
}

/// The address of the pool of a fee configuration and two mints, taken in the order given.
pub fn pool_address(program_id: &Address, config: &Address, mint0: &Address, mint1: &Address) -> (outcome:
    Result<ProgramAddress, Error>)
    ensures
        outcome_view(outcome) == derived(program_id@, pool_seeds(config@, mint0@, mint1@)),
        outcome matches Err(e) ==> e == Error::NoViableBump,
{
    let mut seeds: Vec<Vec<u8>> = Vec::new();
    seeds.push(vec![112u8, 111, 111, 108]);
    seeds.push(config.to_vec());
    seeds.push(mint0.to_vec());
    seeds.push(mint1.to_vec());
    proof {
        assert(seeds@[0]@ =~= pool_seed());
        assert(seed_views(seeds@) =~= pool_seeds(config@, mint0@, mint1@));
    }
    derive(program_id, &seeds)
}

/// The address of the pool of a fee configuration and two mints, whichever
/// way round the mints are given.
pub fn resolve_pool(program_id: &Address, config: &Address, a: &Address, b: &Address) -> (outcome:
    Result<ProgramAddress, Error>)
    ensures
        outcome_view(outcome) == resolved_pool(program_id@, config@, a@, b@),
        outcome matches Err(e) ==> e == Error::NoViableBump,
{
    let (mint0, mint1) = canonical_mints(a, b);
    pool_address(program_id, config, &mint0, &mint1)
}

/// The address of the bitmap extension of a pool.
pub fn bitmap_extension_address(program_id: &Address, pool: &Address) -> (outcome: Result<
    ProgramAddress,
    Error,
>)
    ensures
        outcome_view(outcome) == derived(program_id@, bitmap_extension_seeds(pool@)),
        outcome matches Err(e) ==> e == Error::NoViableBump,
{
    let mut seeds: Vec<Vec<u8>> = Vec::new();
    seeds.push(
        vec![
            112u8, 111, 111, 108, 95, 116, 105, 99, 107, 95, 97, 114, 114, 97, 121, 95, 98, 105,
            116, 109, 97, 112, 95, 101, 120, 116, 101, 110, 115, 105, 111, 110,
        ],
    );
    seeds.push(pool.to_vec());
    proof {
        assert(seeds@[0]@ =~= bitmap_extension_seed());
        assert(seed_views(seeds@) =~= bitmap_extension_seeds(pool@));
    }
    derive(program_id, &seeds)
}

/// The address of the tick array of a pool that starts at the given tick.
pub fn tick_array_address(program_id: &Address, pool: &Address, start_index: i32) -> (outcome:
    Result<ProgramAddress, Error>)
    ensures
        outcome_view(outcome) == derived(program_id@, tick_array_seeds(pool@, start_index)),
        outcome matches Err(e) ==> e == Error::NoViableBump,
{
    let mut seeds: Vec<Vec<u8>> = Vec::new();
    seeds.push(vec![116u8, 105, 99, 107, 95, 97, 114, 114, 97, 121]);
    seeds.push(pool.to_vec());
    seeds.push(be_vec(twos_i32(start_index) as u128, 4));
    proof {
        assert(seeds@[0]@ =~= tick_array_seed());
        assert(seed_views(seeds@) =~= tick_array_seeds(pool@, start_index));
        crate::wire::lemma_le_bytes_len(to_twos(start_index as int, 4), 4);
    }
    derive(program_id, &seeds)
}

/// The seed `position`.
pub open spec fn position_seed() -> Seq<u8> {
    seq![112u8, 111, 115, 105, 116, 105, 111, 110]
}

/// The seeds of the position that the protocol keeps for a tick range of a
/// pool: its seed, the pool's address and the two ticks in two's complement,
/// most significant byte first.
pub open spec fn protocol_position_seeds(pool: Seq<u8>, tick_lower: i32, tick_upper: i32) -> Seq<
    Seq<u8>,
> {
    seq![
        position_seed(),
        pool,
        be_bytes(to_twos(tick_lower as int, 4), 4),
        be_bytes(to_twos(tick_upper as int, 4), 4),
    ]
}

/// The seeds of the position that belongs to a position token: its seed and the token's mint.
pub open spec fn personal_position_seeds(nft_mint: Seq<u8>) -> Seq<Seq<u8>> {
    seq![position_seed(), nft_mint]
}

/// The address of the position that the protocol keeps for a tick range of a pool.
pub fn protocol_position_address(
    program_id: &Address,
    pool: &Address,
    tick_lower: i32,
    tick_upper: i32,
) -> (outcome: Result<ProgramAddress, Error>)
    ensures
        outcome_view(outcome) == derived(
            program_id@,
            protocol_position_seeds(pool@, tick_lower, tick_upper),
        ),
        outcome matches Err(e) ==> e == Error::NoViableBump,
{
    let mut seeds: Vec<Vec<u8>> = Vec::new();
    seeds.push(vec![112u8, 111, 115, 105, 116, 105, 111, 110]);
    seeds.push(pool.to_vec());
    seeds.push(be_vec(twos_i32(tick_lower) as u128, 4));
    seeds.push(be_vec(twos_i32(tick_upper) as u128, 4));
    proof {
        assert(seeds@[0]@ =~= position_seed());
        assert(seed_views(seeds@) =~= protocol_position_seeds(pool@, tick_lower, tick_upper));
        crate::wire::lemma_le_bytes_len(to_twos(tick_lower as int, 4), 4);
        crate::wire::lemma_le_bytes_len(to_twos(tick_upper as int, 4), 4);
    }
    derive(program_id, &seeds)
}

/// The address of the position that belongs to a position token.
pub fn personal_position_address(program_id: &Address, nft_mint: &Address) -> (outcome: Result<
    ProgramAddress,
    Error,
>)
    ensures
        outcome_view(outcome) == derived(program_id@, personal_position_seeds(nft_mint@)),
        outcome matches Err(e) ==> e == Error::NoViableBump,
{
    let mut seeds: Vec<Vec<u8>> = Vec::new();
    seeds.push(vec![112u8, 111, 115, 105, 116, 105, 111, 110]);
    seeds.push(nft_mint.to_vec());
    proof {
        assert(seeds@[0]@ =~= position_seed());
        assert(seed_views(seeds@) =~= personal_position_seeds(nft_mint@));
    }
    derive(program_id, &seeds)
}

/// The address alone of the outcome of a derivation.
pub open spec fn address_of(outcome: Result<(Seq<u8>, u8), Error>) -> Result<Seq<u8>, Error> {
    match outcome {
        Ok(pair) => Ok(pair.0),
        Err(e) => Err(e),
    }
}

/// The view of an address, or the error that stands in its place.
pub open spec fn key_view(key: Result<Address, Error>) -> Result<Seq<u8>, Error> {
    match key {
        Ok(address) => Ok(address@),
        Err(e) => Err(e),
    }
}

/// The address alone of the outcome of a derivation.
pub fn address_only(outcome: Result<ProgramAddress, Error>) -> (key: Result<Address, Error>)
    ensures
        key_view(key) == address_of(outcome_view(outcome)),
{
    match outcome {
        Ok(found) => Ok(found.address),
        Err(e) => Err(e),
    }
}

/// The seed `pool_vault`.
pub open spec fn pool_vault_seed() -> Seq<u8> {
    seq![112u8, 111, 111, 108, 95, 118, 97, 117, 108, 116]
}

/// The seed `observation`.
pub open spec fn observation_seed() -> Seq<u8> {
    seq![111u8, 98, 115, 101, 114, 118, 97, 116, 105, 111, 110]
}

/// The seeds of the vault that a pool keeps for one of its mints.
pub open spec fn pool_vault_seeds(pool: Seq<u8>, mint: Seq<u8>) -> Seq<Seq<u8>> {
    seq![pool_vault_seed(), pool, mint]
}

/// The seeds of the price observations of a pool.
pub open spec fn observation_seeds(pool: Seq<u8>) -> Seq<Seq<u8>> {
    seq![observation_seed(), pool]
}

/// The address of the vault that a pool keeps for one of its mints.
pub fn pool_vault_address(program_id: &Address, pool: &Address, mint: &Address) -> (outcome: Result<
    ProgramAddress,
    Error,
>)
    ensures
        outcome_view(outcome) == derived(program_id@, pool_vault_seeds(pool@, mint@)),
        outcome matches Err(e) ==> e == Error::NoViableBump,
{
    let mut seeds: Vec<Vec<u8>> = Vec::new();
    seeds.push(vec![112u8, 111, 111, 108, 95, 118, 97, 117, 108, 116]);
    seeds.push(pool.to_vec());
    seeds.push(mint.to_vec());
    proof {
        assert(seeds@[0]@ =~= pool_vault_seed());
        assert(seed_views(seeds@) =~= pool_vault_seeds(pool@, mint@));
    }
    derive(program_id, &seeds)
}

/// The address of the price observations of a pool.
pub fn observation_address(program_id: &Address, pool: &Address) -> (outcome: Result<
    ProgramAddress,
    Error,
>)
    ensures
        outcome_view(outcome) == derived(program_id@, observation_seeds(pool@)),
        outcome matches Err(e) ==> e == Error::NoViableBump,
{
    let mut seeds: Vec<Vec<u8>> = Vec::new();
    seeds.push(vec![111u8, 98, 115, 101, 114, 118, 97, 116, 105, 111, 110]);
    seeds.push(pool.to_vec());
    proof {
        assert(seeds@[0]@ =~= observation_seed());
        assert(seed_views(seeds@) =~= observation_seeds(pool@));
    }
    derive(program_id, &seeds)
}

} // verus!
