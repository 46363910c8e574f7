use crate::address::{
    address_of, address_only, bitmap_extension_address, bitmap_extension_seeds, canonical_mints,
    canonical_pair, config_address, config_seeds, derived, lex_less, observation_address,
    observation_seeds, personal_position_address, personal_position_seeds, pool_address,
    pool_seeds, pool_vault_address, pool_vault_seeds, protocol_position_address,
    protocol_position_seeds, tick_array_address, tick_array_seeds, Address,
};
use crate::config::ClientConfig;
use crate::error::Error;
use crate::instruction::InstructionArgs;
use crate::router::{address_views, routed_keys, tick_array_route};
use crate::state::{PersonalPositionState, PoolState, TickArrayBitmapExtension};
use crate::wire::{le_bytes, put_u32, put_u64, put_u8};
use crate::tick::{
    array_start, check_tick_range, price_limit, price_limit_valid, resolve_price_limit,
    tick_array_start_index, tick_range_valid, MAX_SQRT_PRICE_X64, MIN_SQRT_PRICE_X64,
};
use vstd::prelude::*;

verus! {

/// An account that an instruction names: its address, whether it signs, and
/// whether the instruction may write to it.
#[derive(Clone, Copy, Debug, PartialEq, Eq)]
pub struct AccountMeta {
    pub address: Address,
    pub is_signer: bool,
    pub is_writable: bool,
}

/// An instruction for the program: the accounts in the order in which the
/// program expects them, and the tag and arguments of the action. It is
/// neither signed nor sent.
#[derive(Clone, Debug, PartialEq, Eq)]
pub struct Instruction {
    pub program_id: Address,
    pub accounts: Vec<AccountMeta>,
    pub data: Vec<u8>,
}

/// An account that only is read.
pub open spec fn readonly(address: Address) -> AccountMeta {
    AccountMeta { address, is_signer: false, is_writable: false }
}

/// An account that may be written to.
pub open spec fn writable(address: Address) -> AccountMeta {
    AccountMeta { address, is_signer: false, is_writable: true }
}

/// An account that signs.
pub open spec fn signer(address: Address) -> AccountMeta {
    AccountMeta { address, is_signer: true, is_writable: false }
}

/// An account that signs and may be written to.
pub open spec fn paying_signer(address: Address) -> AccountMeta {
    AccountMeta { address, is_signer: true, is_writable: true }
}

impl AccountMeta {
    /// An account that only is read.
    pub fn readonly(address: Address) -> (meta: AccountMeta)
        ensures
            meta == readonly(address),
    {
        AccountMeta { address, is_signer: false, is_writable: false }
    }

    /// An account that may be written to.
    pub fn writable(address: Address) -> (meta: AccountMeta)
        ensures
            meta == writable(address),
    {
        AccountMeta { address, is_signer: false, is_writable: true }
    }

    /// An account that signs.
    pub fn signer(address: Address) -> (meta: AccountMeta)
        ensures
            meta == signer(address),
    {
        AccountMeta { address, is_signer: true, is_writable: false }
    }

    /// An account that signs and may be written to.
    pub fn paying_signer(address: Address) -> (meta: AccountMeta)
        ensures
            meta == paying_signer(address),
    {
        AccountMeta { address, is_signer: true, is_writable: true }
    }
}

/// Whether an instruction is the one that asks the program for an action on
/// the given accounts.
pub open spec fn is_instruction(
    ix: Instruction,
    program_id: Address,
    accounts: Seq<AccountMeta>,
    args: InstructionArgs,
) -> bool {
    ix.program_id == program_id && ix.accounts@ == accounts && ix.data@ == args.encoded()
}

/// The instruction that asks the program for an action on the given accounts.
pub fn assemble(program_id: &Address, accounts: Vec<AccountMeta>, args: &InstructionArgs) -> (ix:
    Instruction)
    ensures
        is_instruction(ix, *program_id, accounts@, *args),
{
    Instruction { program_id: *program_id, accounts, data: args.encode() }
}

/// The accounts of creating a fee configuration.
pub open spec fn create_config_metas(owner: Address, amm_config: Address, system_program: Address)
    -> Seq<AccountMeta> {
    seq![paying_signer(owner), writable(amm_config), readonly(system_program)]
}

/// The instruction that creates the fee configuration with the given index.
/// Its address is derived from the index. A tick spacing of zero is refused.
pub fn create_amm_config_instruction(
    program_id: &Address,
    owner: &Address,
    system_program: &Address,
    index: u16,
    tick_spacing: u16,
    trade_fee_rate: u32,
    protocol_fee_rate: u32,
    fund_fee_rate: u32,
) -> (built: Result<Instruction, Error>)
    ensures
        tick_spacing == 0 ==> built == Err::<Instruction, Error>(Error::InvalidTickRange),
        tick_spacing > 0 ==> match address_of(derived(program_id@, config_seeds(index))) {
            Err(e) => built == Err::<Instruction, Error>(e),
            Ok(key) => built matches Ok(ix) && is_instruction(
                ix,
                *program_id,
                create_config_metas(*owner, address_with(key), *system_program),
                InstructionArgs::CreateAmmConfig {
                    index,
                    tick_spacing,
                    trade_fee_rate,
                    protocol_fee_rate,
                    fund_fee_rate,
                },
            ),
        },
{
    if tick_spacing == 0 {
        return Err(Error::InvalidTickRange);
    }
    let amm_config = match address_only(config_address(program_id, index)) {
        Ok(key) => key,
        Err(e) => {
            return Err(e);
        },
    };
    let mut accounts: Vec<AccountMeta> = Vec::new();
    accounts.push(AccountMeta::paying_signer(*owner));
    accounts.push(AccountMeta::writable(amm_config));
    accounts.push(AccountMeta::readonly(*system_program));
    assert(accounts@ =~= create_config_metas(*owner, amm_config, *system_program));
    let args = InstructionArgs::CreateAmmConfig {
        index,
        tick_spacing,
        trade_fee_rate,
        protocol_fee_rate,
        fund_fee_rate,
    };
    proof {
        lemma_address_with(amm_config);
    }
    Ok(assemble(program_id, accounts, &args))
}

/// The accounts that a swap names besides the tick arrays on its route.
#[derive(Clone, Copy, Debug, PartialEq, Eq)]
pub struct SwapAccounts {
    pub payer: Address,
    pub amm_config: Address,
    pub pool_state: Address,
    pub input_token_account: Address,
    pub output_token_account: Address,
    pub input_vault: Address,
    pub output_vault: Address,
    pub observation_state: Address,
    pub token_program: Address,
}

/// The accounts of a swap: the payer, the pool's accounts, the tick array
/// that the swap begins at, the bitmap extension, and the further tick arrays
/// of the route in their order.
pub open spec fn swap_metas(
    accounts: SwapAccounts,
    bitmap_extension: Address,
    tick_arrays: Seq<Address>,
) -> Seq<AccountMeta> {
    seq![
        signer(accounts.payer),
        readonly(accounts.amm_config),
        writable(accounts.pool_state),
        writable(accounts.input_token_account),
        writable(accounts.output_token_account),
        writable(accounts.input_vault),
        writable(accounts.output_vault),
        writable(accounts.observation_state),
        readonly(accounts.token_program),
        writable(tick_arrays[0]),
        readonly(bitmap_extension),
    ] + Seq::new((tick_arrays.len() - 1) as nat, |i: int| writable(tick_arrays[i + 1]))
}

/// The instruction of a swap along the given route of tick arrays. `amount`
/// is what goes in where `is_base_input` holds, and what comes out otherwise.
/// A swap of nothing and a swap without a tick array to begin at are refused.
pub fn swap_instruction(
    program_id: &Address,
    accounts: &SwapAccounts,
    bitmap_extension: &Address,
    tick_arrays: &Vec<Address>,
    amount: u64,
    other_amount_threshold: u64,
    sqrt_price_limit_x64: u128,
    is_base_input: bool,
) -> (built: Result<Instruction, Error>)
    ensures
        amount == 0 ==> built == Err::<Instruction, Error>(Error::ZeroAmount),
        amount > 0 && tick_arrays@.len() == 0 ==> built == Err::<Instruction, Error>(
            Error::NoInitializedTickArray,
        ),
        amount > 0 && tick_arrays@.len() > 0 ==> (built matches Ok(ix) && is_instruction(
            ix,
            *program_id,
            swap_metas(*accounts, *bitmap_extension, tick_arrays@),
            InstructionArgs::Swap {
                amount,
                other_amount_threshold,
                sqrt_price_limit_x64,
                is_base_input,
            },
        )),
{
    if amount == 0 {
        return Err(Error::ZeroAmount);
    }
    if tick_arrays.len() == 0 {
        return Err(Error::NoInitializedTickArray);
    }
    let mut metas: Vec<AccountMeta> = Vec::new();
    metas.push(AccountMeta::signer(accounts.payer));
    metas.push(AccountMeta::readonly(accounts.amm_config));
    metas.push(AccountMeta::writable(accounts.pool_state));
    metas.push(AccountMeta::writable(accounts.input_token_account));
    metas.push(AccountMeta::writable(accounts.output_token_account));
    metas.push(AccountMeta::writable(accounts.input_vault));
    metas.push(AccountMeta::writable(accounts.output_vault));
    metas.push(AccountMeta::writable(accounts.observation_state));
    metas.push(AccountMeta::readonly(accounts.token_program));
    metas.push(AccountMeta::writable(tick_arrays[0]));
    metas.push(AccountMeta::readonly(*bitmap_extension));
    let ghost wanted = swap_metas(*accounts, *bitmap_extension, tick_arrays@);
    let n: usize = tick_arrays.len();
    let mut i: usize = 1;
    while i < n
        invariant
            1 <= i <= n == tick_arrays@.len(),
            wanted == swap_metas(*accounts, *bitmap_extension, tick_arrays@),
            metas@.len() == 10 + i,
            forall|j: int| 0 <= j < 10 + i ==> metas@[j] == wanted[j],
        decreases n - i,
    {
        metas.push(AccountMeta::writable(tick_arrays[i]));
        i += 1;
    }
    assert(metas@ =~= wanted);
    let args = InstructionArgs::Swap {
        amount,
        other_amount_threshold,
        sqrt_price_limit_x64,
        is_base_input,
    };
    Ok(assemble(program_id, metas, &args))
}

/// What the caller asks of a swap.
#[derive(Clone, Copy, Debug, PartialEq, Eq)]
pub struct SwapRequest {
    pub payer: Address,
    pub input_token_account: Address,
    pub output_token_account: Address,
    pub token_program: Address,
    /// Whether token 0 is traded for token 1, which moves the price down.
    pub zero_for_one: bool,
    pub amount: u64,
    pub other_amount_threshold: u64,
    /// The square-root price at which the swap stops, if the caller sets one.
    pub sqrt_price_limit_x64: Option<u128>,
    /// Whether `amount` is what goes in (else it is what comes out).
    pub base_in: bool,
}

/// The address with the given bytes.
pub open spec fn address_with(bytes: Seq<u8>) -> Address {
    choose|address: Address| address@ == bytes
}

/// The addresses with the given bytes.
pub open spec fn addresses_with(keys: Seq<Seq<u8>>) -> Seq<Address> {
    Seq::new(keys.len(), |i: int| address_with(keys[i]))
}

/// An address is given by its bytes.
pub proof fn lemma_address_with(address: Address)
    ensures
        address_with(address@) == address,
{
    crate::address::lemma_address_ext(address_with(address@), address);
}

/// Addresses are given by their bytes.
pub proof fn lemma_addresses_with(found: Seq<Address>)
    ensures
        addresses_with(address_views(found)) == found,
{
    assert forall|i: int| 0 <= i < found.len() implies addresses_with(address_views(found))[i]
        == found[i] by {
        lemma_address_with(found[i]);
    }
    assert(addresses_with(address_views(found)) =~= found);
}

/// The accounts that a swap of a pool names: the vault of the token that goes
/// in comes first.
pub open spec fn pool_swap_accounts(
    pool_config: &ClientConfig,
    pool_id: Address,
    pool_state: &PoolState,
    request: SwapRequest,
) -> SwapAccounts {
    SwapAccounts {
        payer: request.payer,
        amm_config: pool_config.amm_config_key,
        pool_state: pool_id,
        input_token_account: request.input_token_account,
        output_token_account: request.output_token_account,
        input_vault: if request.zero_for_one {
            pool_state.token_vault_0
        } else {
            pool_state.token_vault_1
        },
        output_vault: if request.zero_for_one {
            pool_state.token_vault_1
        } else {
            pool_state.token_vault_0
        },
        observation_state: pool_state.observation_key,
        token_program: request.token_program,
    }
}

/// Whether a swap is built at all, and if not, why: a swap of nothing, a
/// limit price on the wrong side of the pool's price, a configuration without
/// pool or bitmap extension, and a swap without a route are refused, in this
/// order.
pub open spec fn swap_refusal(
    pool_config: &ClientConfig,
    pool_state: &PoolState,
    tickarray_bitmap_extension: &TickArrayBitmapExtension,
    request: SwapRequest,
    limit: int,
) -> Option<Error> {
    if request.amount == 0 {
        Some(Error::ZeroAmount)
    } else if !price_limit_valid(
        price_limit(request.sqrt_price_limit_x64, request.zero_for_one),
        request.zero_for_one,
        pool_state.sqrt_price_x64,
    ) {
        Some(Error::SlippageExceeded)
    } else if pool_config.pool_id_account is None || pool_config.tickarray_bitmap_extension
        is None {
        Some(Error::MissingAccount)
    } else {
        match routed_keys(
            pool_config,
            pool_state,
            tickarray_bitmap_extension,
            request.zero_for_one,
            limit,
        ) {
            Err(e) => Some(e),
            Ok(_) => None,
        }
    }
}

/// Builds the instruction of a swap of a pool: checks the request, routes the
/// swap through the tick arrays that it may cross, and names the pool's
/// accounts for the trade direction.
pub fn build_swap(
    pool_config: &ClientConfig,
    pool_state: &PoolState,
    tickarray_bitmap_extension: &TickArrayBitmapExtension,
    request: &SwapRequest,
    lookahead: usize,
) -> (built: Result<Instruction, Error>)
    ensures
        match swap_refusal(
            pool_config,
            pool_state,
            tickarray_bitmap_extension,
            *request,
            lookahead + 1,
        ) {
            Some(e) => built == Err::<Instruction, Error>(e),
            None => built matches Ok(ix) && is_instruction(
                ix,
                pool_config.raydium_v3_program,
                swap_metas(
                    pool_swap_accounts(
                        pool_config,
                        pool_config.pool_id_account->Some_0,
                        pool_state,
                        *request,
                    ),
                    pool_config.tickarray_bitmap_extension->Some_0,
                    addresses_with(
                        routed_keys(
                            pool_config,
                            pool_state,
                            tickarray_bitmap_extension,
                            request.zero_for_one,
                            lookahead + 1,
                        )->Ok_0,
                    ),
                ),
                InstructionArgs::Swap {
                    amount: request.amount,
                    other_amount_threshold: request.other_amount_threshold,
                    sqrt_price_limit_x64: price_limit(
                        request.sqrt_price_limit_x64,
                        request.zero_for_one,
                    ),
                    is_base_input: request.base_in,
                },
            ),
        },
{
    if request.amount == 0 {
        return Err(Error::ZeroAmount);
    }
    let limit = match resolve_price_limit(
        request.sqrt_price_limit_x64,
        request.zero_for_one,
        pool_state.sqrt_price_x64,
    ) {
        Ok(price) => price,
        Err(e) => {
            return Err(e);
        },
    };
    let (pool_id, extension) = match (
        pool_config.pool_id_account,
        pool_config.tickarray_bitmap_extension,
    ) {
        (Some(pool_id), Some(extension)) => (pool_id, extension),
        _ => {
            return Err(Error::MissingAccount);
        },
    };
    let tick_arrays = match tick_array_route(
        pool_config,
        pool_state,
        tickarray_bitmap_extension,
        request.zero_for_one,
        lookahead,
    ) {
        Ok(found) => found,
        Err(e) => {
            return Err(e);
        },
    };
    proof {
        lemma_addresses_with(tick_arrays@);
    }
    let accounts = SwapAccounts {
        payer: request.payer,
        amm_config: pool_config.amm_config_key,
        pool_state: pool_id,
        input_token_account: request.input_token_account,
        output_token_account: request.output_token_account,
        input_vault: if request.zero_for_one {
            pool_state.token_vault_0
        } else {
            pool_state.token_vault_1
        },
        output_vault: if request.zero_for_one {
            pool_state.token_vault_1
        } else {
            pool_state.token_vault_0
        },
        observation_state: pool_state.observation_key,
        token_program: request.token_program,
    };
    swap_instruction(
        &pool_config.raydium_v3_program,
        &accounts,
        &extension,
        &tick_arrays,
        request.amount,
        request.other_amount_threshold,
        limit,
        request.base_in,
    )
}

/// The addresses that a position in a tick range of a pool needs: the
/// protocol's position for the range, the tick arrays that hold the two
/// ticks, and the position of the position token.
#[derive(Clone, Copy, Debug, PartialEq, Eq)]
pub struct PositionAddresses {
    pub protocol_position: Address,
    pub tick_array_lower: Address,
    pub tick_array_upper: Address,
    pub personal_position: Address,
}

/// The addresses that a position needs, as they are derived: the first
/// derivation that fails gives the error.
pub open spec fn position_keys(
    program_id: Seq<u8>,
    pool: Seq<u8>,
    nft_mint: Seq<u8>,
    tick_lower: i32,
    tick_upper: i32,
    tick_spacing: u16,
) -> Result<(Seq<u8>, Seq<u8>, Seq<u8>, Seq<u8>), Error> {
    match address_of(derived(program_id, protocol_position_seeds(pool, tick_lower, tick_upper))) {
        Err(e) => Err(e),
        Ok(protocol) => match address_of(
            derived(
                program_id,
                tick_array_seeds(pool, array_start(tick_lower as int, tick_spacing) as i32),
            ),
        ) {
            Err(e) => Err(e),
            Ok(lower) => match address_of(
                derived(
                    program_id,
                    tick_array_seeds(pool, array_start(tick_upper as int, tick_spacing) as i32),
                ),
            ) {
                Err(e) => Err(e),
                Ok(upper) => match address_of(
                    derived(program_id, personal_position_seeds(nft_mint)),
                ) {
                    Err(e) => Err(e),
                    Ok(personal) => Ok((protocol, lower, upper, personal)),
                },
            },
        },
    }
}

/// The view of the addresses of a position, or the error in their place.
pub open spec fn position_view(found: Result<PositionAddresses, Error>) -> Result<
    (Seq<u8>, Seq<u8>, Seq<u8>, Seq<u8>),
    Error,
> {
    match found {
        Ok(a) => Ok(
            (a.protocol_position@, a.tick_array_lower@, a.tick_array_upper@, a.personal_position@),
        ),
        Err(e) => Err(e),
    }
}

/// Derives the addresses that a position in a valid tick range needs.
pub fn position_addresses(
    program_id: &Address,
    pool: &Address,
    nft_mint: &Address,
    tick_lower: i32,
    tick_upper: i32,
    tick_spacing: u16,
) -> (found: Result<PositionAddresses, Error>)
    ensures
        !tick_range_valid(tick_lower as int, tick_upper as int, tick_spacing) ==> found
            == Err::<PositionAddresses, Error>(Error::InvalidTickRange),
        tick_range_valid(tick_lower as int, tick_upper as int, tick_spacing) ==> position_view(
            found,
        ) == position_keys(program_id@, pool@, nft_mint@, tick_lower, tick_upper, tick_spacing),
{
    match check_tick_range(tick_lower, tick_upper, tick_spacing) {
        Err(e) => {
            return Err(e);
        },
        Ok(_) => {},
    }
    let lower_start = match tick_array_start_index(tick_lower, tick_spacing) {
        Ok(start) => start,
        Err(e) => {
            return Err(e);
        },
    };
    let upper_start = match tick_array_start_index(tick_upper, tick_spacing) {
        Ok(start) => start,
        Err(e) => {
            return Err(e);
        },
    };
    let protocol_position = match address_only(
        protocol_position_address(program_id, pool, tick_lower, tick_upper),
    ) {
        Ok(key) => key,
        Err(e) => {
            return Err(e);
        },
    };
    let tick_array_lower = match address_only(tick_array_address(program_id, pool, lower_start)) {
        Ok(key) => key,
        Err(e) => {
            return Err(e);
        },
    };
    let tick_array_upper = match address_only(tick_array_address(program_id, pool, upper_start)) {
        Ok(key) => key,
        Err(e) => {
            return Err(e);
        },
    };
    let personal_position = match address_only(personal_position_address(program_id, nft_mint)) {
        Ok(key) => key,
        Err(e) => {
            return Err(e);
        },
    };
    Ok(PositionAddresses { protocol_position, tick_array_lower, tick_array_upper, personal_position })
}

/// The accounts that opening a position names besides those that are derived.
#[derive(Clone, Copy, Debug, PartialEq, Eq)]
pub struct OpenPositionAccounts {
    pub payer: Address,
    pub position_nft_owner: Address,
    pub position_nft_mint: Address,
    pub position_nft_account: Address,
    pub metadata_account: Address,
    pub token_account_0: Address,
    pub token_account_1: Address,
    pub rent: Address,
    pub system_program: Address,
    pub token_program: Address,
    pub associated_token_program: Address,
    pub metadata_program: Address,
}

/// The accounts of opening a position, in the program's order, with the
/// bitmap extension last.
pub open spec fn open_position_metas(
    accounts: OpenPositionAccounts,
    pool_id: Address,
    pool_state: &PoolState,
    bitmap_extension: Address,
    derived: PositionAddresses,
) -> Seq<AccountMeta> {
    seq![
        paying_signer(accounts.payer),
        readonly(accounts.position_nft_owner),
        paying_signer(accounts.position_nft_mint),
        writable(accounts.position_nft_account),
        writable(accounts.metadata_account),
        writable(pool_id),
        writable(derived.protocol_position),
        writable(derived.tick_array_lower),
        writable(derived.tick_array_upper),
        writable(derived.personal_position),
        writable(accounts.token_account_0),
        writable(accounts.token_account_1),
        writable(pool_state.token_vault_0),
        writable(pool_state.token_vault_1),
        readonly(accounts.rent),
        readonly(accounts.system_program),
        readonly(accounts.token_program),
        readonly(accounts.associated_token_program),
        readonly(accounts.metadata_program),
        writable(bitmap_extension),
    ]
}

/// The addresses with the bytes of the keys of a position.
pub open spec fn position_with(keys: (Seq<u8>, Seq<u8>, Seq<u8>, Seq<u8>)) -> PositionAddresses {
    PositionAddresses {
        protocol_position: address_with(keys.0),
        tick_array_lower: address_with(keys.1),
        tick_array_upper: address_with(keys.2),
        personal_position: address_with(keys.3),
    }
}

/// The addresses of a position are given by their bytes.
pub proof fn lemma_position_with(found: PositionAddresses)
    ensures
        position_with(
            (
                found.protocol_position@,
                found.tick_array_lower@,
                found.tick_array_upper@,
                found.personal_position@,
            ),
        ) == found,
{
    lemma_address_with(found.protocol_position);
    lemma_address_with(found.tick_array_lower);
    lemma_address_with(found.tick_array_upper);
    lemma_address_with(found.personal_position);
}

/// Why a change of liquidity in a tick range is refused, if it is: an invalid
/// tick range first, then a liquidity of zero, then an address that cannot be
/// derived.
pub open spec fn liquidity_refusal(
    program_id: Seq<u8>,
    pool: Seq<u8>,
    nft_mint: Seq<u8>,
    tick_lower: i32,
    tick_upper: i32,
    tick_spacing: u16,
    liquidity: u128,
) -> Option<Error> {
    if !tick_range_valid(tick_lower as int, tick_upper as int, tick_spacing) {
        Some(Error::InvalidTickRange)
    } else if liquidity == 0 {
        Some(Error::ZeroAmount)
    } else {
        match position_keys(program_id, pool, nft_mint, tick_lower, tick_upper, tick_spacing) {
            Err(e) => Some(e),
            Ok(_) => None,
        }
    }
}

/// The instruction that opens a position in a tick range of a pool. Where
/// the range is invalid for the pool's tick spacing, nothing is built.
pub fn open_position_instruction(
    program_id: &Address,
    accounts: &OpenPositionAccounts,
    pool_id: &Address,
    pool_state: &PoolState,
    bitmap_extension: &Address,
    tick_lower_index: i32,
    tick_upper_index: i32,
    liquidity: u128,
    amount_0_max: u64,
    amount_1_max: u64,
) -> (built: Result<Instruction, Error>)
    ensures
        match liquidity_refusal(
            program_id@,
            pool_id@,
            accounts.position_nft_mint@,
            tick_lower_index,
            tick_upper_index,
            pool_state.tick_spacing,
            liquidity,
        ) {
            Some(e) => built == Err::<Instruction, Error>(e),
            None => built matches Ok(ix) && is_instruction(
                ix,
                *program_id,
                open_position_metas(
                    *accounts,
                    *pool_id,
                    pool_state,
                    *bitmap_extension,
                    position_with(
                        position_keys(
                            program_id@,
                            pool_id@,
                            accounts.position_nft_mint@,
                            tick_lower_index,
                            tick_upper_index,
                            pool_state.tick_spacing,
                        )->Ok_0,
                    ),
                ),
                InstructionArgs::OpenPosition {
                    tick_lower_index,
                    tick_upper_index,
                    tick_array_lower_start_index: array_start(
                        tick_lower_index as int,
                        pool_state.tick_spacing,
                    ) as i32,
                    tick_array_upper_start_index: array_start(
                        tick_upper_index as int,
                        pool_state.tick_spacing,
                    ) as i32,
                    liquidity,
                    amount_0_max,
                    amount_1_max,
                },
            ),
        },
{
    match check_tick_range(tick_lower_index, tick_upper_index, pool_state.tick_spacing) {
        Err(e) => {
            return Err(e);
        },
        Ok(_) => {},
    }
    if liquidity == 0 {
        return Err(Error::ZeroAmount);
    }
    let found = match position_addresses(
        program_id,
        pool_id,
        &accounts.position_nft_mint,
        tick_lower_index,
        tick_upper_index,
        pool_state.tick_spacing,
    ) {
        Ok(found) => found,
        Err(e) => {
            return Err(e);
        },
    };
    let lower_start = match tick_array_start_index(tick_lower_index, pool_state.tick_spacing) {
        Ok(start) => start,
        Err(e) => {
            return Err(e);
        },
    };
    let upper_start = match tick_array_start_index(tick_upper_index, pool_state.tick_spacing) {
        Ok(start) => start,
        Err(e) => {
            return Err(e);
        },
    };
    let mut metas: Vec<AccountMeta> = Vec::new();
    metas.push(AccountMeta::paying_signer(accounts.payer));
    metas.push(AccountMeta::readonly(accounts.position_nft_owner));
    metas.push(AccountMeta::paying_signer(accounts.position_nft_mint));
    metas.push(AccountMeta::writable(accounts.position_nft_account));
    metas.push(AccountMeta::writable(accounts.metadata_account));
    metas.push(AccountMeta::writable(*pool_id));
    metas.push(AccountMeta::writable(found.protocol_position));
    metas.push(AccountMeta::writable(found.tick_array_lower));
    metas.push(AccountMeta::writable(found.tick_array_upper));
    metas.push(AccountMeta::writable(found.personal_position));
    metas.push(AccountMeta::writable(accounts.token_account_0));
    metas.push(AccountMeta::writable(accounts.token_account_1));
    metas.push(AccountMeta::writable(pool_state.token_vault_0));
    metas.push(AccountMeta::writable(pool_state.token_vault_1));
    metas.push(AccountMeta::readonly(accounts.rent));
    metas.push(AccountMeta::readonly(accounts.system_program));
    metas.push(AccountMeta::readonly(accounts.token_program));
    metas.push(AccountMeta::readonly(accounts.associated_token_program));
    metas.push(AccountMeta::readonly(accounts.metadata_program));
    metas.push(AccountMeta::writable(*bitmap_extension));
    proof {
        lemma_position_with(found);
        assert(metas@ =~= open_position_metas(
            *accounts,
            *pool_id,
            pool_state,
            *bitmap_extension,
            found,
        ));
    }
    let args = InstructionArgs::OpenPosition {
        tick_lower_index,
        tick_upper_index,
        tick_array_lower_start_index: lower_start,
        tick_array_upper_start_index: upper_start,
        liquidity,
        amount_0_max,
        amount_1_max,
    };
    Ok(assemble(program_id, metas, &args))
}

/// The accounts that a change of a position's liquidity names besides those
/// that are derived.
#[derive(Clone, Copy, Debug, PartialEq, Eq)]
pub struct LiquidityAccounts {
    pub nft_owner: Address,
    pub nft_account: Address,
    pub token_account_0: Address,
    pub token_account_1: Address,
    pub token_program: Address,
}

/// The accounts of adding liquidity to a position, in the program's order,
/// with the bitmap extension last.
pub open spec fn increase_liquidity_metas(
    accounts: LiquidityAccounts,
    pool_id: Address,
    pool_state: &PoolState,
    bitmap_extension: Address,
    derived: PositionAddresses,
) -> Seq<AccountMeta> {
    seq![
        signer(accounts.nft_owner),
        readonly(accounts.nft_account),
        writable(pool_id),
        writable(derived.protocol_position),
        writable(derived.personal_position),
        writable(derived.tick_array_lower),
        writable(derived.tick_array_upper),
        writable(accounts.token_account_0),
        writable(accounts.token_account_1),
        writable(pool_state.token_vault_0),
        writable(pool_state.token_vault_1),
        readonly(accounts.token_program),
        writable(bitmap_extension),
    ]
}

/// The accounts of taking liquidity out of a position, in the program's
/// order, with the bitmap extension last.
pub open spec fn decrease_liquidity_metas(
    accounts: LiquidityAccounts,
    pool_id: Address,
    pool_state: &PoolState,
    bitmap_extension: Address,
    derived: PositionAddresses,
) -> Seq<AccountMeta> {
    seq![
        signer(accounts.nft_owner),
        readonly(accounts.nft_account),
        writable(derived.personal_position),
        writable(pool_id),
        writable(derived.protocol_position),
        writable(pool_state.token_vault_0),
        writable(pool_state.token_vault_1),
        writable(derived.tick_array_lower),
        writable(derived.tick_array_upper),
        writable(accounts.token_account_0),
        writable(accounts.token_account_1),
        readonly(accounts.token_program),
        writable(bitmap_extension),
    ]
}

/// The instruction that adds liquidity to a position, up to the given
/// amounts of the two tokens.
pub fn increase_liquidity_instruction(
    program_id: &Address,
    accounts: &LiquidityAccounts,
    pool_id: &Address,
    pool_state: &PoolState,
    bitmap_extension: &Address,
    position: &PersonalPositionState,
    liquidity: u128,
    amount_0_max: u64,
    amount_1_max: u64,
) -> (built: Result<Instruction, Error>)
    ensures
        match liquidity_refusal(
            program_id@,
            pool_id@,
            position.nft_mint@,
            position.tick_lower_index,
            position.tick_upper_index,
            pool_state.tick_spacing,
            liquidity,
        ) {
            Some(e) => built == Err::<Instruction, Error>(e),
            None => built matches Ok(ix) && is_instruction(
                ix,
                *program_id,
                increase_liquidity_metas(
                    *accounts,
                    *pool_id,
                    pool_state,
                    *bitmap_extension,
                    position_with(
                        position_keys(
                            program_id@,
                            pool_id@,
                            position.nft_mint@,
                            position.tick_lower_index,
                            position.tick_upper_index,
                            pool_state.tick_spacing,
                        )->Ok_0,
                    ),
                ),
                InstructionArgs::IncreaseLiquidity { liquidity, amount_0_max, amount_1_max },
            ),
        },
{
    match check_tick_range(
        position.tick_lower_index,
        position.tick_upper_index,
        pool_state.tick_spacing,
    ) {
        Err(e) => {
            return Err(e);
        },
        Ok(_) => {},
    }
    if liquidity == 0 {
        return Err(Error::ZeroAmount);
    }
    let found = match position_addresses(
        program_id,
        pool_id,
        &position.nft_mint,
        position.tick_lower_index,
        position.tick_upper_index,
        pool_state.tick_spacing,
    ) {
        Ok(found) => found,
        Err(e) => {
            return Err(e);
        },
    };
    let mut metas: Vec<AccountMeta> = Vec::new();
    metas.push(AccountMeta::signer(accounts.nft_owner));
    metas.push(AccountMeta::readonly(accounts.nft_account));
    metas.push(AccountMeta::writable(*pool_id));
    metas.push(AccountMeta::writable(found.protocol_position));
    metas.push(AccountMeta::writable(found.personal_position));
    metas.push(AccountMeta::writable(found.tick_array_lower));
    metas.push(AccountMeta::writable(found.tick_array_upper));
    metas.push(AccountMeta::writable(accounts.token_account_0));
    metas.push(AccountMeta::writable(accounts.token_account_1));
    metas.push(AccountMeta::writable(pool_state.token_vault_0));
    metas.push(AccountMeta::writable(pool_state.token_vault_1));
    metas.push(AccountMeta::readonly(accounts.token_program));
    metas.push(AccountMeta::writable(*bitmap_extension));
    proof {
        lemma_position_with(found);
        assert(metas@ =~= increase_liquidity_metas(
            *accounts,
            *pool_id,
            pool_state,
            *bitmap_extension,
            found,
        ));
    }
    let args = InstructionArgs::IncreaseLiquidity { liquidity, amount_0_max, amount_1_max };
    Ok(assemble(program_id, metas, &args))
}

/// The instruction that takes liquidity out of a position, for at least the
/// given amounts of the two tokens.
pub fn decrease_liquidity_instruction(
    program_id: &Address,
    accounts: &LiquidityAccounts,
    pool_id: &Address,
    pool_state: &PoolState,
    bitmap_extension: &Address,
    position: &PersonalPositionState,
    liquidity: u128,
    amount_0_min: u64,
    amount_1_min: u64,
) -> (built: Result<Instruction, Error>)
    ensures
        match liquidity_refusal(
            program_id@,
            pool_id@,
            position.nft_mint@,
            position.tick_lower_index,
            position.tick_upper_index,
            pool_state.tick_spacing,
            liquidity,
        ) {
            Some(e) => built == Err::<Instruction, Error>(e),
            None => built matches Ok(ix) && is_instruction(
                ix,
                *program_id,
                decrease_liquidity_metas(
                    *accounts,
                    *pool_id,
                    pool_state,
                    *bitmap_extension,
                    position_with(
                        position_keys(
                            program_id@,
                            pool_id@,
                            position.nft_mint@,
                            position.tick_lower_index,
                            position.tick_upper_index,
                            pool_state.tick_spacing,
                        )->Ok_0,
                    ),
                ),
                InstructionArgs::DecreaseLiquidity { liquidity, amount_0_min, amount_1_min },
            ),
        },
{
    match check_tick_range(
        position.tick_lower_index,
        position.tick_upper_index,
        pool_state.tick_spacing,
    ) {
        Err(e) => {
            return Err(e);
        },
        Ok(_) => {},
    }
    if liquidity == 0 {
        return Err(Error::ZeroAmount);
    }
    let found = match position_addresses(
        program_id,
        pool_id,
        &position.nft_mint,
        position.tick_lower_index,
        position.tick_upper_index,
        pool_state.tick_spacing,
    ) {
        Ok(found) => found,
        Err(e) => {
            return Err(e);
        },
    };
    let mut metas: Vec<AccountMeta> = Vec::new();
    metas.push(AccountMeta::signer(accounts.nft_owner));
    metas.push(AccountMeta::readonly(accounts.nft_account));
    metas.push(AccountMeta::writable(found.personal_position));
    metas.push(AccountMeta::writable(*pool_id));
    metas.push(AccountMeta::writable(found.protocol_position));
    metas.push(AccountMeta::writable(pool_state.token_vault_0));
    metas.push(AccountMeta::writable(pool_state.token_vault_1));
    metas.push(AccountMeta::writable(found.tick_array_lower));
    metas.push(AccountMeta::writable(found.tick_array_upper));
    metas.push(AccountMeta::writable(accounts.token_account_0));
    metas.push(AccountMeta::writable(accounts.token_account_1));
    metas.push(AccountMeta::readonly(accounts.token_program));
    metas.push(AccountMeta::writable(*bitmap_extension));
    proof {
        lemma_position_with(found);
        assert(metas@ =~= decrease_liquidity_metas(
            *accounts,
            *pool_id,
            pool_state,
            *bitmap_extension,
            found,
        ));
    }
    let args = InstructionArgs::DecreaseLiquidity { liquidity, amount_0_min, amount_1_min };
    Ok(assemble(program_id, metas, &args))
}

/// The addresses of a pool and of the accounts that belong to it.
#[derive(Clone, Copy, Debug, PartialEq, Eq)]
pub struct PoolAddresses {
    pub amm_config: Address,
    pub pool_state: Address,
    pub token_mint_0: Address,
    pub token_mint_1: Address,
    pub token_vault_0: Address,
    pub token_vault_1: Address,
    pub observation_state: Address,
    pub tick_array_bitmap: Address,
}

/// The addresses of a pool and of its accounts, as byte strings.
#[verifier::ext_equal]
pub struct PoolKeys {
    pub amm_config: Seq<u8>,
    pub pool_state: Seq<u8>,
    pub token_mint_0: Seq<u8>,
    pub token_mint_1: Seq<u8>,
    pub token_vault_0: Seq<u8>,
    pub token_vault_1: Seq<u8>,
    pub observation_state: Seq<u8>,
    pub tick_array_bitmap: Seq<u8>,
}

impl View for PoolAddresses {
    type V = PoolKeys;

    open spec fn view(&self) -> PoolKeys {
        PoolKeys {
            amm_config: self.amm_config@,
            pool_state: self.pool_state@,
            token_mint_0: self.token_mint_0@,
            token_mint_1: self.token_mint_1@,
            token_vault_0: self.token_vault_0@,
            token_vault_1: self.token_vault_1@,
            observation_state: self.observation_state@,
            tick_array_bitmap: self.tick_array_bitmap@,
        }
    }
}

/// The addresses of the pool of two mints under a fee configuration: the
/// mints are put in canonical order, then the configuration, the pool, its
/// two vaults, its observations and its bitmap extension are derived. The
/// first derivation that fails gives the error.
pub open spec fn pool_keys(program_id: Seq<u8>, config_index: u16, a: Seq<u8>, b: Seq<u8>) -> Result<
    PoolKeys,
    Error,
> {
    let mint0 = canonical_pair(a, b).0;
    let mint1 = canonical_pair(a, b).1;
    match address_of(derived(program_id, config_seeds(config_index))) {
        Err(e) => Err(e),
        Ok(config) => match address_of(derived(program_id, pool_seeds(config, mint0, mint1))) {
            Err(e) => Err(e),
            Ok(pool) => match address_of(derived(program_id, pool_vault_seeds(pool, mint0))) {
                Err(e) => Err(e),
                Ok(vault0) => match address_of(
                    derived(program_id, pool_vault_seeds(pool, mint1)),
                ) {
                    Err(e) => Err(e),
                    Ok(vault1) => match address_of(derived(program_id, observation_seeds(pool))) {
                        Err(e) => Err(e),
                        Ok(observation) => match address_of(
                            derived(program_id, bitmap_extension_seeds(pool)),
                        ) {
                            Err(e) => Err(e),
                            Ok(extension) => Ok(
                                PoolKeys {
                                    amm_config: config,
                                    pool_state: pool,
                                    token_mint_0: mint0,
                                    token_mint_1: mint1,
                                    token_vault_0: vault0,
                                    token_vault_1: vault1,
                                    observation_state: observation,
                                    tick_array_bitmap: extension,
                                },
                            ),
                        },
                    },
                },
            },
        },
    }
}

/// The addresses of a pool do not depend on the order in which its mints are given.
pub proof fn lemma_pool_keys_symmetric(program_id: Seq<u8>, config_index: u16, a: Seq<u8>, b: Seq<u8>)
    ensures
        pool_keys(program_id, config_index, a, b) == pool_keys(program_id, config_index, b, a),
{
    crate::address::lemma_canonical_pair_symmetric(a, b);
}

/// Derives the addresses of the pool of two mints under a fee configuration,
/// whichever way round the mints are given.
pub fn pool_addresses(program_id: &Address, config_index: u16, a: &Address, b: &Address) -> (found:
    Result<PoolAddresses, Error>)
    ensures
        crate::codec::result_view(found) == pool_keys(program_id@, config_index, a@, b@),
        found matches Ok(pool) ==> !lex_less(pool.token_mint_1@, pool.token_mint_0@),
{
    let (token_mint_0, token_mint_1) = canonical_mints(a, b);
    let amm_config = match address_only(config_address(program_id, config_index)) {
        Ok(key) => key,
        Err(e) => {
            return Err(e);
        },
    };
    let pool_state = match address_only(
        pool_address(program_id, &amm_config, &token_mint_0, &token_mint_1),
    ) {
        Ok(key) => key,
        Err(e) => {
            return Err(e);
        },
    };
    let token_vault_0 = match address_only(pool_vault_address(program_id, &pool_state, &token_mint_0)) {
        Ok(key) => key,
        Err(e) => {
            return Err(e);
        },
    };
    let token_vault_1 = match address_only(pool_vault_address(program_id, &pool_state, &token_mint_1)) {
        Ok(key) => key,
        Err(e) => {
            return Err(e);
        },
    };
    let observation_state = match address_only(observation_address(program_id, &pool_state)) {
        Ok(key) => key,
        Err(e) => {
            return Err(e);
        },
    };
    let tick_array_bitmap = match address_only(bitmap_extension_address(program_id, &pool_state)) {
        Ok(key) => key,
        Err(e) => {
            return Err(e);
        },
    };
    let found = PoolAddresses {
        amm_config,
        pool_state,
        token_mint_0,
        token_mint_1,
        token_vault_0,
        token_vault_1,
        observation_state,
        tick_array_bitmap,
    };
    assert(found@ =~= pool_keys(program_id@, config_index, a@, b@)->Ok_0);
    Ok(found)
}

/// The accounts that creating a pool names besides those that are derived.
#[derive(Clone, Copy, Debug, PartialEq, Eq)]
pub struct CreatePoolAccounts {
    pub pool_creator: Address,
    pub token_program_0: Address,
    pub token_program_1: Address,
    pub system_program: Address,
    pub rent: Address,
}

/// The accounts of creating a pool, in the program's order.
pub open spec fn create_pool_metas(accounts: CreatePoolAccounts, pool: PoolAddresses) -> Seq<
    AccountMeta,
> {
    seq![
        paying_signer(accounts.pool_creator),
        readonly(pool.amm_config),
        writable(pool.pool_state),
        readonly(pool.token_mint_0),
        readonly(pool.token_mint_1),
        writable(pool.token_vault_0),
        writable(pool.token_vault_1),
        writable(pool.observation_state),
        writable(pool.tick_array_bitmap),
        readonly(accounts.token_program_0),
        readonly(accounts.token_program_1),
        readonly(accounts.system_program),
        readonly(accounts.rent),
    ]
}

/// The addresses with the bytes of the keys of a pool.
pub open spec fn pool_with(keys: PoolKeys) -> PoolAddresses {
    PoolAddresses {
        amm_config: address_with(keys.amm_config),
        pool_state: address_with(keys.pool_state),
        token_mint_0: address_with(keys.token_mint_0),
        token_mint_1: address_with(keys.token_mint_1),
        token_vault_0: address_with(keys.token_vault_0),
        token_vault_1: address_with(keys.token_vault_1),
        observation_state: address_with(keys.observation_state),
        tick_array_bitmap: address_with(keys.tick_array_bitmap),
    }
}

/// The addresses of a pool are given by their bytes.
pub proof fn lemma_pool_with(found: PoolAddresses)
    ensures
        pool_with(found@) == found,
{
    lemma_address_with(found.amm_config);
    lemma_address_with(found.pool_state);
    lemma_address_with(found.token_mint_0);
    lemma_address_with(found.token_mint_1);
    lemma_address_with(found.token_vault_0);
    lemma_address_with(found.token_vault_1);
    lemma_address_with(found.observation_state);
    lemma_address_with(found.tick_array_bitmap);
}

/// Whether a square-root price lies within the price range.
pub open spec fn sqrt_price_in_bounds(sqrt_price_x64: u128) -> bool {
    MIN_SQRT_PRICE_X64 <= sqrt_price_x64 <= MAX_SQRT_PRICE_X64
}

/// The instruction that creates the pool of two mints under a fee
/// configuration, at the given price. The mints may be given either way
/// round. A price outside the price range is refused as an invalid tick
/// range.
pub fn create_pool_instruction(
    program_id: &Address,
    accounts: &CreatePoolAccounts,
    config_index: u16,
    mint_a: &Address,
    mint_b: &Address,
    sqrt_price_x64: u128,
    open_time: u64,
) -> (built: Result<Instruction, Error>)
    ensures
        !sqrt_price_in_bounds(sqrt_price_x64) ==> built == Err::<Instruction, Error>(
            Error::InvalidTickRange,
        ),
        sqrt_price_in_bounds(sqrt_price_x64) ==> match pool_keys(
            program_id@,
            config_index,
            mint_a@,
            mint_b@,
        ) {
            Err(e) => built == Err::<Instruction, Error>(e),
            Ok(keys) => built matches Ok(ix) && is_instruction(
                ix,
                *program_id,
                create_pool_metas(*accounts, pool_with(keys)),
                InstructionArgs::CreatePool { sqrt_price_x64, open_time },
            ),
        },
{
    if sqrt_price_x64 < MIN_SQRT_PRICE_X64 || sqrt_price_x64 > MAX_SQRT_PRICE_X64 {
        return Err(Error::InvalidTickRange);
    }
    let pool = match pool_addresses(program_id, config_index, mint_a, mint_b) {
        Ok(found) => found,
        Err(e) => {
            return Err(e);
        },
    };
    let mut metas: Vec<AccountMeta> = Vec::new();
    metas.push(AccountMeta::paying_signer(accounts.pool_creator));
    metas.push(AccountMeta::readonly(pool.amm_config));
    metas.push(AccountMeta::writable(pool.pool_state));
    metas.push(AccountMeta::readonly(pool.token_mint_0));
    metas.push(AccountMeta::readonly(pool.token_mint_1));
    metas.push(AccountMeta::writable(pool.token_vault_0));
    metas.push(AccountMeta::writable(pool.token_vault_1));
    metas.push(AccountMeta::writable(pool.observation_state));
    metas.push(AccountMeta::writable(pool.tick_array_bitmap));
    metas.push(AccountMeta::readonly(accounts.token_program_0));
    metas.push(AccountMeta::readonly(accounts.token_program_1));
    metas.push(AccountMeta::readonly(accounts.system_program));
    metas.push(AccountMeta::readonly(accounts.rent));
    proof {
        lemma_pool_with(pool);
        assert(metas@ =~= create_pool_metas(*accounts, pool));
    }
    let args = InstructionArgs::CreatePool { sqrt_price_x64, open_time };
    Ok(assemble(program_id, metas, &args))
}

/// The accounts that setting up a reward names.
#[derive(Clone, Copy, Debug, PartialEq, Eq)]
pub struct RewardAccounts {
    pub reward_funder: Address,
    pub funder_token_account: Address,
    pub amm_config: Address,
    pub pool_state: Address,
    pub operation_state: Address,
    pub reward_token_mint: Address,
    pub reward_token_vault: Address,
    pub reward_token_program: Address,
    pub system_program: Address,
    pub rent: Address,
}

/// The accounts of setting up a reward, in the program's order.
pub open spec fn initialize_reward_metas(accounts: RewardAccounts) -> Seq<AccountMeta> {
    seq![
        paying_signer(accounts.reward_funder),
        writable(accounts.funder_token_account),
        readonly(accounts.amm_config),
        writable(accounts.pool_state),
        readonly(accounts.operation_state),
        readonly(accounts.reward_token_mint),
        writable(accounts.reward_token_vault),
        readonly(accounts.reward_token_program),
        readonly(accounts.system_program),
        readonly(accounts.rent),
    ]
}

/// The instruction that sets up a reward of a pool. A reward that emits
/// nothing is refused.
pub fn initialize_reward_instruction(
    program_id: &Address,
    accounts: &RewardAccounts,
    open_time: u64,
    end_time: u64,
    emissions_per_second_x64: u128,
) -> (built: Result<Instruction, Error>)
    ensures
        emissions_per_second_x64 == 0 ==> built == Err::<Instruction, Error>(Error::ZeroAmount),
        emissions_per_second_x64 > 0 ==> (built matches Ok(ix) && is_instruction(
            ix,
            *program_id,
            initialize_reward_metas(*accounts),
            InstructionArgs::InitializeReward { open_time, end_time, emissions_per_second_x64 },
        )),
{
    if emissions_per_second_x64 == 0 {
        return Err(Error::ZeroAmount);
    }
    let mut metas: Vec<AccountMeta> = Vec::new();
    metas.push(AccountMeta::paying_signer(accounts.reward_funder));
    metas.push(AccountMeta::writable(accounts.funder_token_account));
    metas.push(AccountMeta::readonly(accounts.amm_config));
    metas.push(AccountMeta::writable(accounts.pool_state));
    metas.push(AccountMeta::readonly(accounts.operation_state));
    metas.push(AccountMeta::readonly(accounts.reward_token_mint));
    metas.push(AccountMeta::writable(accounts.reward_token_vault));
    metas.push(AccountMeta::readonly(accounts.reward_token_program));
    metas.push(AccountMeta::readonly(accounts.system_program));
    metas.push(AccountMeta::readonly(accounts.rent));
    assert(metas@ =~= initialize_reward_metas(*accounts));
    let args = InstructionArgs::InitializeReward { open_time, end_time, emissions_per_second_x64 };
    Ok(assemble(program_id, metas, &args))
}

/// The accounts of changing a reward, in the program's order.
pub open spec fn set_reward_params_metas(
    authority: Address,
    amm_config: Address,
    pool_state: Address,
    operation_state: Address,
) -> Seq<AccountMeta> {
    seq![
        signer(authority),
        readonly(amm_config),
        writable(pool_state),
        readonly(operation_state),
    ]
}

/// The instruction that changes the emissions and the times of a reward of a pool.
pub fn set_reward_params_instruction(
    program_id: &Address,
    authority: &Address,
    amm_config: &Address,
    pool_state: &Address,
    operation_state: &Address,
    reward_index: u8,
    emissions_per_second_x64: u128,
    open_time: u64,
    end_time: u64,
) -> (ix: Instruction)
    ensures
        is_instruction(
            ix,
            *program_id,
            set_reward_params_metas(*authority, *amm_config, *pool_state, *operation_state),
            InstructionArgs::SetRewardParams {
                reward_index,
                emissions_per_second_x64,
                open_time,
                end_time,
            },
        ),
{
    let mut metas: Vec<AccountMeta> = Vec::new();
    metas.push(AccountMeta::signer(*authority));
    metas.push(AccountMeta::readonly(*amm_config));
    metas.push(AccountMeta::writable(*pool_state));
    metas.push(AccountMeta::readonly(*operation_state));
    assert(metas@ =~= set_reward_params_metas(
        *authority,
        *amm_config,
        *pool_state,
        *operation_state,
    ));
    let args = InstructionArgs::SetRewardParams {
        reward_index,
        emissions_per_second_x64,
        open_time,
        end_time,
    };
    assemble(program_id, metas, &args)
}

/// The accounts of handing the rewards of a pool to a new owner.
pub open spec fn transfer_reward_owner_metas(authority: Address, pool_state: Address) -> Seq<
    AccountMeta,
> {
    seq![signer(authority), writable(pool_state)]
}

/// The instruction that hands the rewards of a pool to a new owner.
pub fn transfer_reward_owner_instruction(
    program_id: &Address,
    authority: &Address,
    pool_state: &Address,
    new_owner: &Address,
) -> (ix: Instruction)
    ensures
        is_instruction(
            ix,
            *program_id,
            transfer_reward_owner_metas(*authority, *pool_state),
            InstructionArgs::TransferRewardOwner { new_owner: *new_owner },
        ),
{
    let mut metas: Vec<AccountMeta> = Vec::new();
    metas.push(AccountMeta::signer(*authority));
    metas.push(AccountMeta::writable(*pool_state));
    assert(metas@ =~= transfer_reward_owner_metas(*authority, *pool_state));
    let args = InstructionArgs::TransferRewardOwner { new_owner: *new_owner };
    assemble(program_id, metas, &args)
}

/// The accounts that the second form of a swap names besides those of the first.
#[derive(Clone, Copy, Debug, PartialEq, Eq)]
pub struct SwapV2Accounts {
    pub token_program_2022: Address,
    pub memo_program: Address,
    pub input_vault_mint: Address,
    pub output_vault_mint: Address,
}

/// The accounts of the second form of a swap: the payer, the pool's
/// accounts, the token programs and the mints, the bitmap extension, and all
/// tick arrays of the route in their order.
pub open spec fn swap_v2_metas(
    accounts: SwapAccounts,
    more: SwapV2Accounts,
    bitmap_extension: Address,
    tick_arrays: Seq<Address>,
) -> Seq<AccountMeta> {
    seq![
        signer(accounts.payer),
        readonly(accounts.amm_config),
        writable(accounts.pool_state),
        writable(accounts.input_token_account),
        writable(accounts.output_token_account),
        writable(accounts.input_vault),
        writable(accounts.output_vault),
        writable(accounts.observation_state),
        readonly(accounts.token_program),
        readonly(more.token_program_2022),
        readonly(more.memo_program),
        readonly(more.input_vault_mint),
        readonly(more.output_vault_mint),
        readonly(bitmap_extension),
    ] + Seq::new(tick_arrays.len(), |i: int| writable(tick_arrays[i]))
}

/// The instruction of the second form of a swap along the given route of
/// tick arrays. A swap of nothing and a swap without a tick array to begin
/// at are refused.
pub fn swap_v2_instruction(
    program_id: &Address,
    accounts: &SwapAccounts,
    more: &SwapV2Accounts,
    bitmap_extension: &Address,
    tick_arrays: &Vec<Address>,
    amount: u64,
    other_amount_threshold: u64,
    sqrt_price_limit_x64: u128,
    is_base_input: bool,
) -> (built: Result<Instruction, Error>)
    ensures
        amount == 0 ==> built == Err::<Instruction, Error>(Error::ZeroAmount),
        amount > 0 && tick_arrays@.len() == 0 ==> built == Err::<Instruction, Error>(
            Error::NoInitializedTickArray,
        ),
        amount > 0 && tick_arrays@.len() > 0 ==> (built matches Ok(ix) && is_instruction(
            ix,
            *program_id,
            swap_v2_metas(*accounts, *more, *bitmap_extension, tick_arrays@),
            InstructionArgs::SwapV2 {
                amount,
                other_amount_threshold,
                sqrt_price_limit_x64,
                is_base_input,
            },
        )),
{
    if amount == 0 {
        return Err(Error::ZeroAmount);
    }
    if tick_arrays.len() == 0 {
        return Err(Error::NoInitializedTickArray);
    }
    let mut metas: Vec<AccountMeta> = Vec::new();
    metas.push(AccountMeta::signer(accounts.payer));
    metas.push(AccountMeta::readonly(accounts.amm_config));
    metas.push(AccountMeta::writable(accounts.pool_state));
    metas.push(AccountMeta::writable(accounts.input_token_account));
    metas.push(AccountMeta::writable(accounts.output_token_account));
    metas.push(AccountMeta::writable(accounts.input_vault));
    metas.push(AccountMeta::writable(accounts.output_vault));
    metas.push(AccountMeta::writable(accounts.observation_state));
    metas.push(AccountMeta::readonly(accounts.token_program));
    metas.push(AccountMeta::readonly(more.token_program_2022));
    metas.push(AccountMeta::readonly(more.memo_program));
    metas.push(AccountMeta::readonly(more.input_vault_mint));
    metas.push(AccountMeta::readonly(more.output_vault_mint));
    metas.push(AccountMeta::readonly(*bitmap_extension));
    let ghost wanted = swap_v2_metas(*accounts, *more, *bitmap_extension, tick_arrays@);
    let n: usize = tick_arrays.len();
    let mut i: usize = 0;
    while i < n
        invariant
            i <= n == tick_arrays@.len(),
            wanted == swap_v2_metas(*accounts, *more, *bitmap_extension, tick_arrays@),
            metas@.len() == 14 + i,
            forall|j: int| 0 <= j < 14 + i ==> metas@[j] == wanted[j],
        decreases n - i,
    {
        metas.push(AccountMeta::writable(tick_arrays[i]));
        i += 1;
    }
    assert(metas@ =~= wanted);
    let args = InstructionArgs::SwapV2 {
        amount,
        other_amount_threshold,
        sqrt_price_limit_x64,
        is_base_input,
    };
    Ok(assemble(program_id, metas, &args))
}

/// The data of the instruction that sets the most compute units that a
/// transaction may use: the tag 2, then the units.
pub open spec fn compute_unit_limit_data(units: u32) -> Seq<u8> {
    seq![2u8] + le_bytes(units as nat, 4)
}

/// The data of the instruction that sets the price of a compute unit, which
/// gives a transaction its priority: the tag 3, then the price.
pub open spec fn compute_unit_price_data(micro_lamports: u64) -> Seq<u8> {
    seq![3u8] + le_bytes(micro_lamports as nat, 8)
}

/// The instruction for the compute-budget program that sets the most compute
/// units that a transaction may use. It names no account.
pub fn compute_unit_limit_instruction(compute_budget_program: &Address, units: u32) -> (ix:
    Instruction)
    ensures
        ix.program_id == *compute_budget_program,
        ix.accounts@ == Seq::<AccountMeta>::empty(),
        ix.data@ == compute_unit_limit_data(units),
{
    let mut data: Vec<u8> = Vec::new();
    put_u8(&mut data, 2);
    put_u32(&mut data, units);
    assert(data@ =~= compute_unit_limit_data(units));
    Instruction { program_id: *compute_budget_program, accounts: Vec::new(), data }
}

/// The instruction for the compute-budget program that sets the price of a
/// compute unit. It names no account.
pub fn compute_unit_price_instruction(compute_budget_program: &Address, micro_lamports: u64) -> (ix:
    Instruction)
    ensures
        ix.program_id == *compute_budget_program,
        ix.accounts@ == Seq::<AccountMeta>::empty(),
        ix.data@ == compute_unit_price_data(micro_lamports),
{
    let mut data: Vec<u8> = Vec::new();
    put_u8(&mut data, 3);
    put_u64(&mut data, micro_lamports);
    assert(data@ =~= compute_unit_price_data(micro_lamports));
    Instruction { program_id: *compute_budget_program, accounts: Vec::new(), data }
}

/// The instructions of a transaction: the instruction for the compute budget
/// first, where there is one, then the action.
pub fn with_budget(budget: Option<Instruction>, action: Instruction) -> (instructions: Vec<
    Instruction,
>)
    ensures
        instructions@ == match budget {
            Some(first) => seq![first, action],
            None => seq![action],
        },
{
    let mut instructions: Vec<Instruction> = Vec::new();
    match budget {
        Some(first) => {
            instructions.push(first);
            instructions.push(action);
            assert(instructions@ =~= seq![first, action]);
        },
        None => {
            instructions.push(action);
            assert(instructions@ =~= seq![action]);
        },
    }
    instructions
}

} // verus!
