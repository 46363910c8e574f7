use crate::address::{address_of, derived, tick_array_address, tick_array_seeds, Address};
use crate::bitmap::{
    get_first_initialized_tick_array, has_first_start, has_next_start, is_first_start,
    is_next_start, lemma_next_offset_unique, next_initialized_tick_array_start_index,
    ticks_per_array,
};
use crate::config::ClientConfig;
use crate::error::Error;
use crate::state::{PoolState, TickArrayBitmapExtension};
use vstd::prelude::*;

verus! {

/// Tick arrays that a route looks ahead of the one it begins at, unless the
/// caller sets another bound.
pub const DEFAULT_LOOKAHEAD: usize = 5;

/// Whether `starts` is the route of a swap through at most `limit` tick
/// arrays: it begins where the swap begins, each further array is the nearest
/// initialized one beyond the one before it in the trade direction, and it
/// stops short of the limit only where no initialized array is left.
pub open spec fn is_route(
    pool: &PoolState,
    ext: &TickArrayBitmapExtension,
    zero_for_one: bool,
    limit: int,
    starts: Seq<i32>,
) -> bool {
    &&& 1 <= starts.len() <= limit
    &&& is_first_start(pool, ext, zero_for_one, starts[0] as int)
    &&& forall|i: int|
        0 <= i < starts.len() - 1 ==> is_next_start(
            pool,
            ext,
            #[trigger] starts[i] as int,
            zero_for_one,
            starts[i + 1] as int,
        )
    &&& (starts.len() < limit ==> !has_next_start(
        pool,
        ext,
        starts[starts.len() - 1] as int,
        zero_for_one,
    ))
}

/// The route of a swap through at most `limit` tick arrays.
pub open spec fn route_starts(
    pool: &PoolState,
    ext: &TickArrayBitmapExtension,
    zero_for_one: bool,
    limit: int,
) -> Seq<i32> {
    choose|starts: Seq<i32>| is_route(pool, ext, zero_for_one, limit, starts)
}

/// Whether start ticks are strictly monotonic in the trade direction:
/// falling when token 0 is traded for token 1, rising otherwise.
pub open spec fn strictly_monotonic(starts: Seq<i32>, zero_for_one: bool) -> bool {
    forall|i: int, j: int|
        0 <= i < j < starts.len() ==> if zero_for_one {
            starts[i] > starts[j]
        } else {
            starts[i] < starts[j]
        }
}

/// A start tick is given by its offset.
proof fn lemma_start_of_offset(t: int, a: int, b: int)
    requires
        t > 0,
        a % t == 0,
        b % t == 0,
        a / t == b / t,
    ensures
        a == b,
{
    vstd::arithmetic::div_mod::lemma_fundamental_div_mod(a, t);
    vstd::arithmetic::div_mod::lemma_fundamental_div_mod(b, t);
}

/// Start ticks stand in the order of their offsets.
proof fn lemma_start_order(t: int, a: int, b: int)
    requires
        t > 0,
        a % t == 0,
        b % t == 0,
        a / t < b / t,
    ensures
        a < b,
{
    vstd::arithmetic::div_mod::lemma_fundamental_div_mod(a, t);
    vstd::arithmetic::div_mod::lemma_fundamental_div_mod(b, t);
    assert(t * (a / t) < t * (b / t)) by (nonlinear_arith)
        requires
            t > 0,
            a / t < b / t,
    ;
}

/// Two routes of one swap agree as far as both go.
proof fn lemma_route_prefix(
    pool: &PoolState,
    ext: &TickArrayBitmapExtension,
    zero_for_one: bool,
    limit: int,
    a: Seq<i32>,
    b: Seq<i32>,
    n: int,
)
    requires
        is_route(pool, ext, zero_for_one, limit, a),
        is_route(pool, ext, zero_for_one, limit, b),
        0 <= n < a.len(),
        n < b.len(),
    ensures
        a[n] == b[n],
    decreases n,
{
    let t = ticks_per_array(pool.tick_spacing);
    if n == 0 {
        if !crate::bitmap::offset_initialized(pool, ext, pool.tick_current as int / t) {
            lemma_next_offset_unique(
                pool,
                ext,
                pool.tick_current as int / t,
                zero_for_one,
                a[0] as int / t,
                b[0] as int / t,
            );
        }
        lemma_start_of_offset(t, a[0] as int, b[0] as int);
    } else {
        lemma_route_prefix(pool, ext, zero_for_one, limit, a, b, n - 1);
        let from = a[n - 1];
        assert(is_next_start(pool, ext, a[n - 1] as int, zero_for_one, a[n - 1 + 1] as int));
        assert(is_next_start(pool, ext, b[n - 1] as int, zero_for_one, b[n - 1 + 1] as int));
        lemma_next_offset_unique(
            pool,
            ext,
            from as int / t,
            zero_for_one,
            a[n] as int / t,
            b[n] as int / t,
        );
        lemma_start_of_offset(t, a[n] as int, b[n] as int);
    }
}

/// A swap has one route only.
pub proof fn lemma_route_unique(
    pool: &PoolState,
    ext: &TickArrayBitmapExtension,
    zero_for_one: bool,
    limit: int,
    a: Seq<i32>,
    b: Seq<i32>,
)
    requires
        is_route(pool, ext, zero_for_one, limit, a),
        is_route(pool, ext, zero_for_one, limit, b),
    ensures
        a == b,
{
    let t = ticks_per_array(pool.tick_spacing);
    if a.len() < b.len() {
        let n = a.len() as int;
        lemma_route_prefix(pool, ext, zero_for_one, limit, a, b, n - 1);
        assert(is_next_start(pool, ext, b[n - 1] as int, zero_for_one, b[n - 1 + 1] as int));
        assert(crate::bitmap::offset_initialized(pool, ext, b[n] as int / t));
        assert(false);
    } else if b.len() < a.len() {
        let n = b.len() as int;
        lemma_route_prefix(pool, ext, zero_for_one, limit, a, b, n - 1);
        assert(is_next_start(pool, ext, a[n - 1] as int, zero_for_one, a[n - 1 + 1] as int));
        assert(crate::bitmap::offset_initialized(pool, ext, a[n] as int / t));
        assert(false);
    } else {
        assert forall|i: int| 0 <= i < a.len() implies a[i] == b[i] by {
            lemma_route_prefix(pool, ext, zero_for_one, limit, a, b, i);
        }
        assert(a =~= b);
    }
}

/// The start ticks of a route are strictly monotonic in the trade direction:
/// falling when token 0 is traded for token 1, rising otherwise. Each is a
/// multiple of the ticks that one tick array covers.
pub proof fn lemma_route_monotonic(
    pool: &PoolState,
    ext: &TickArrayBitmapExtension,
    zero_for_one: bool,
    limit: int,
    starts: Seq<i32>,
    i: int,
    j: int,
)
    requires
        is_route(pool, ext, zero_for_one, limit, starts),
        0 <= i < j < starts.len(),
    ensures
        zero_for_one ==> starts[i] > starts[j],
        !zero_for_one ==> starts[i] < starts[j],
        starts[i] as int % ticks_per_array(pool.tick_spacing) == 0,
        starts[j] as int % ticks_per_array(pool.tick_spacing) == 0,
    decreases j - i,
{
    let t = ticks_per_array(pool.tick_spacing);
    assert(is_next_start(pool, ext, starts[j - 1] as int, zero_for_one, starts[j - 1 + 1] as int));
    if i > 0 {
        assert(is_next_start(pool, ext, starts[i - 1] as int, zero_for_one, starts[i - 1 + 1] as int));
    }
    if j - 1 > 0 {
        assert(is_next_start(
            pool,
            ext,
            starts[j - 2] as int,
            zero_for_one,
            starts[j - 2 + 1] as int,
        ));
    }
    if zero_for_one {
        lemma_start_order(t, starts[j] as int, starts[j - 1] as int);
    } else {
        lemma_start_order(t, starts[j - 1] as int, starts[j] as int);
    }
    if i < j - 1 {
        lemma_route_monotonic(pool, ext, zero_for_one, limit, starts, i, j - 1);
    }
}

/// Every tick array of a route is initialized, and its start tick is a
/// multiple of the ticks that one tick array covers.
pub proof fn lemma_route_initialized(
    pool: &PoolState,
    ext: &TickArrayBitmapExtension,
    zero_for_one: bool,
    limit: int,
    starts: Seq<i32>,
    i: int,
)
    requires
        is_route(pool, ext, zero_for_one, limit, starts),
        0 <= i < starts.len(),
    ensures
        starts[i] as int % ticks_per_array(pool.tick_spacing) == 0,
        crate::bitmap::start_initialized(pool, ext, starts[i] as int),
{
    if i > 0 {
        assert(is_next_start(pool, ext, starts[i - 1] as int, zero_for_one, starts[i - 1 + 1] as int));
    }
}

/// The start ticks of the tick arrays that a swap in the given direction may
/// cross: the one it begins at and up to `lookahead` more.
pub fn tick_array_start_indices(
    pool: &PoolState,
    ext: &TickArrayBitmapExtension,
    zero_for_one: bool,
    lookahead: usize,
) -> (route: Result<Vec<i32>, Error>)
    ensures
        route is Ok <==> has_first_start(pool, ext, zero_for_one),
        route matches Ok(starts) ==> {
            &&& is_route(pool, ext, zero_for_one, lookahead + 1, starts@)
            &&& starts@ == route_starts(pool, ext, zero_for_one, lookahead + 1)
            &&& 1 <= starts@.len() <= lookahead + 1
            &&& strictly_monotonic(starts@, zero_for_one)
        },
        route matches Err(e) ==> e == Error::NoInitializedTickArray,
{
    let first = match get_first_initialized_tick_array(pool, ext, zero_for_one) {
        Ok((_, start)) => start,
        Err(e) => {
            return Err(e);
        },
    };
    let mut starts: Vec<i32> = Vec::new();
    starts.push(first);
    let mut current: i32 = first;
    let mut left: usize = lookahead;
    let mut exhausted: bool = false;
    while left != 0 && !exhausted
        invariant
            1 <= starts@.len(),
            starts@.len() + left == lookahead + 1,
            current == starts@[starts@.len() - 1],
            is_first_start(pool, ext, zero_for_one, starts@[0] as int),
            forall|i: int|
                0 <= i < starts@.len() - 1 ==> is_next_start(
                    pool,
                    ext,
                    #[trigger] starts@[i] as int,
                    zero_for_one,
                    starts@[i + 1] as int,
                ),
            exhausted ==> !has_next_start(pool, ext, current as int, zero_for_one),
        decreases left + (if exhausted { 0int } else { 1int }),
    {
        match next_initialized_tick_array_start_index(pool, ext, current, zero_for_one) {
            Some(next) => {
                let ghost before = starts@;
                starts.push(next);
                proof {
                    assert forall|i: int| 0 <= i < starts@.len() - 1 implies is_next_start(
                        pool,
                        ext,
                        #[trigger] starts@[i] as int,
                        zero_for_one,
                        starts@[i + 1] as int,
                    ) by {
                        if i < before.len() - 1 {
                            assert(starts@[i] == before[i]);
                            assert(starts@[i + 1] == before[i + 1]);
                        }
                    }
                }
                current = next;
                left = left - 1;
            },
            None => {
                exhausted = true;
            },
        }
    }
    proof {
        let limit = lookahead + 1;
        assert(is_route(pool, ext, zero_for_one, limit, starts@));
        lemma_route_unique(
            pool,
            ext,
            zero_for_one,
            limit,
            starts@,
            route_starts(pool, ext, zero_for_one, limit),
        );
        assert forall|i: int, j: int| 0 <= i < j < starts@.len() implies if zero_for_one {
            starts@[i] > starts@[j]
        } else {
            starts@[i] < starts@[j]
        } by {
            lemma_route_monotonic(pool, ext, zero_for_one, limit, starts@, i, j);
        }
    }
    Ok(starts)
}

/// The addresses of the tick arrays with the given start ticks, in their
/// order, or the error of the first derivation that fails.
pub open spec fn route_keys(program_id: Seq<u8>, pool_id: Seq<u8>, starts: Seq<i32>) -> Result<
    Seq<Seq<u8>>,
    Error,
>
    decreases starts.len(),
{
    if starts.len() == 0 {
        Ok(Seq::empty())
    } else {
        match route_keys(program_id, pool_id, starts.drop_last()) {
            Err(e) => Err(e),
            Ok(keys) => match address_of(
                derived(program_id, tick_array_seeds(pool_id, starts.last())),
            ) {
                Err(e) => Err(e),
                Ok(key) => Ok(keys.push(key)),
            },
        }
    }
}

/// Every address of a route is the tick-array address of its start tick.
pub proof fn lemma_route_keys_consistent(
    program_id: Seq<u8>,
    pool_id: Seq<u8>,
    starts: Seq<i32>,
    i: int,
)
    requires
        route_keys(program_id, pool_id, starts) is Ok,
        0 <= i < starts.len(),
    ensures
        route_keys(program_id, pool_id, starts)->Ok_0.len() == starts.len(),
        Ok::<Seq<u8>, Error>(route_keys(program_id, pool_id, starts)->Ok_0[i]) == address_of(
            derived(program_id, tick_array_seeds(pool_id, starts[i])),
        ),
    decreases starts.len(),
{
    lemma_route_keys_len(program_id, pool_id, starts);
    if i < starts.len() - 1 {
        lemma_route_keys_len(program_id, pool_id, starts.drop_last());
        lemma_route_keys_consistent(program_id, pool_id, starts.drop_last(), i);
    }
}

/// A route has one address for each start tick.
pub proof fn lemma_route_keys_len(program_id: Seq<u8>, pool_id: Seq<u8>, starts: Seq<i32>)
    requires
        route_keys(program_id, pool_id, starts) is Ok,
    ensures
        route_keys(program_id, pool_id, starts)->Ok_0.len() == starts.len(),
    decreases starts.len(),
{
    if starts.len() > 0 {
        lemma_route_keys_len(program_id, pool_id, starts.drop_last());
    }
}

/// The views of a list of addresses.
pub open spec fn address_views(keys: Seq<Address>) -> Seq<Seq<u8>> {
    Seq::new(keys.len(), |i: int| keys[i]@)
}

/// The addresses of the tick arrays with the given start ticks.
pub fn tick_array_keys(program_id: &Address, pool_id: &Address, starts: &Vec<i32>) -> (keys: Result<
    Vec<Address>,
    Error,
>)
    ensures
        keys_view(keys) == route_keys(program_id@, pool_id@, starts@),
        keys matches Err(e) ==> e == Error::NoViableBump,
{
    let mut found: Vec<Address> = Vec::new();
    let mut i: usize = 0;
    assert(starts@.subrange(0, 0) =~= Seq::<i32>::empty());
    assert(address_views(found@) =~= Seq::<Seq<u8>>::empty());
    while i < starts.len()
        invariant
            i <= starts@.len(),
            Ok::<Seq<Seq<u8>>, Error>(address_views(found@)) == route_keys(
                program_id@,
                pool_id@,
                starts@.subrange(0, i as int),
            ),
        decreases starts@.len() - i,
    {
        let ghost prefix = starts@.subrange(0, i + 1);
        proof {
            assert(prefix.drop_last() =~= starts@.subrange(0, i as int));
            assert(prefix.last() == starts@[i as int]);
        }
        match tick_array_address(program_id, pool_id, starts[i]) {
            Ok(derived) => {
                let ghost before = found@;
                found.push(derived.address);
                assert(address_views(found@) =~= address_views(before).push(derived.address@));
            },
            Err(e) => {
                proof {
                    lemma_route_keys_fail(program_id@, pool_id@, starts@, i + 1);
                }
                return Err(e);
            },
        }
        i += 1;
    }
    assert(starts@.subrange(0, i as int) =~= starts@);
    Ok(found)
}

/// A derivation that fails for a prefix of the start ticks fails for all of them.
proof fn lemma_route_keys_fail(program_id: Seq<u8>, pool_id: Seq<u8>, starts: Seq<i32>, n: int)
    requires
        0 <= n <= starts.len(),
        route_keys(program_id, pool_id, starts.subrange(0, n)) is Err,
    ensures
        route_keys(program_id, pool_id, starts) == route_keys(
            program_id,
            pool_id,
            starts.subrange(0, n),
        ),
    decreases starts.len() - n,
{
    if n == starts.len() {
        assert(starts.subrange(0, n) =~= starts);
    } else {
        let longer = starts.subrange(0, n + 1);
        assert(longer.drop_last() =~= starts.subrange(0, n));
        lemma_route_keys_fail(program_id, pool_id, starts, n + 1);
    }
}

/// The view of the outcome of a routing.
pub open spec fn keys_view(keys: Result<Vec<Address>, Error>) -> Result<Seq<Seq<u8>>, Error> {
    match keys {
        Ok(found) => Ok(address_views(found@)),
        Err(e) => Err(e),
    }
}

/// What routing a swap through at most `limit` tick arrays gives: the
/// addresses of the tick arrays on its route, in the order in which the swap
/// crosses them. It fails where the configuration names no pool, where no
/// initialized tick array lies in the trade direction, and where an address
/// cannot be derived.
pub open spec fn routed_keys(
    pool_config: &ClientConfig,
    pool_state: &PoolState,
    tickarray_bitmap_extension: &TickArrayBitmapExtension,
    zero_for_one: bool,
    limit: int,
) -> Result<Seq<Seq<u8>>, Error> {
    match pool_config.pool_id_account {
        None => Err(Error::MissingAccount),
        Some(pool_id) => if !has_first_start(pool_state, tickarray_bitmap_extension, zero_for_one) {
            Err(Error::NoInitializedTickArray)
        } else {
            route_keys(
                pool_config.raydium_v3_program@,
                pool_id@,
                route_starts(pool_state, tickarray_bitmap_extension, zero_for_one, limit),
            )
        },
    }
}

/// The addresses of the tick arrays that a swap in the given direction may
/// cross, in the order in which it crosses them: the one it begins at and up
/// to `lookahead` more.
pub fn tick_array_route(
    pool_config: &ClientConfig,
    pool_state: &PoolState,
    tickarray_bitmap_extension: &TickArrayBitmapExtension,
    zero_for_one: bool,
    lookahead: usize,
) -> (keys: Result<Vec<Address>, Error>)
    ensures
        keys_view(keys) == routed_keys(
            pool_config,
            pool_state,
            tickarray_bitmap_extension,
            zero_for_one,
            lookahead + 1,
        ),
        keys matches Ok(found) ==> 1 <= found@.len() <= lookahead + 1,
{
    let pool_id = match pool_config.pool_id_account {
        Some(pool_id) => pool_id,
        None => {
            return Err(Error::MissingAccount);
        },
    };
    let starts = match tick_array_start_indices(
        pool_state,
        tickarray_bitmap_extension,
        zero_for_one,
        lookahead,
    ) {
        Ok(starts) => starts,
        Err(e) => {
            return Err(e);
        },
    };
    let keys = tick_array_keys(&pool_config.raydium_v3_program, &pool_id, &starts);
    proof {
        if keys is Ok {
            lemma_route_keys_len(pool_config.raydium_v3_program@, pool_id@, starts@);
        }
    }
    keys
}

/// The addresses of the tick array that a swap begins at and of the next
/// five initialized ones in the trade direction: never more than six.
pub fn load_cur_and_next_five_tick_array_keys(
    pool_config: &ClientConfig,
    pool_state: &PoolState,
    tickarray_bitmap_extension: &TickArrayBitmapExtension,
    zero_for_one: bool,
) -> (keys: Result<Vec<Address>, Error>)
    ensures
        keys_view(keys) == routed_keys(
            pool_config,
            pool_state,
            tickarray_bitmap_extension,
            zero_for_one,
            6,
        ),
        keys matches Ok(found) ==> 1 <= found@.len() <= 6,
{
    tick_array_route(
        pool_config,
        pool_state,
        tickarray_bitmap_extension,
        zero_for_one,
        DEFAULT_LOOKAHEAD,
    )
}

} // verus!
