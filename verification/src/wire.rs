use crate::address::Address;
use vstd::prelude::*;

verus! {

/// 256 to the power `n`.
pub open spec fn pow256(n: nat) -> nat
    decreases n,
{
    if n == 0 {
        1
    } else {
        256 * pow256((n - 1) as nat)
    }
}

/// The low `width` bytes of `value`, least significant first.
pub open spec fn le_bytes(value: nat, width: nat) -> Seq<u8>
    decreases width,
{
    if width == 0 {
        Seq::empty()
    } else {
        seq![(value % 256) as u8] + le_bytes(value / 256, (width - 1) as nat)
    }
}

/// The number that a byte string holds, least significant byte first.
pub open spec fn le_value(bytes: Seq<u8>) -> nat
    decreases bytes.len(),
{
    if bytes.len() == 0 {
        0
    } else {
        bytes[0] as nat + 256 * le_value(bytes.drop_first())
    }
}

/// The low `width` bytes of `value`, most significant first.
pub open spec fn be_bytes(value: nat, width: nat) -> Seq<u8> {
    le_bytes(value, width).reverse()
}

/// The unsigned number that stands for `value` in two's complement of `width` bytes.
pub open spec fn to_twos(value: int, width: nat) -> nat {
    if value < 0 {
        (value + pow256(width)) as nat
    } else {
        value as nat
    }
}

/// The signed number that `raw` stands for in two's complement of `width` bytes.
pub open spec fn from_twos(raw: nat, width: nat) -> int {
    if 2 * raw >= pow256(width) {
        raw - pow256(width)
    } else {
        raw as int
    }
}

/// `n` zero bytes.
pub open spec fn zeros(n: nat) -> Seq<u8> {
    Seq::new(n, |i: int| 0u8)
}

/// The powers of 256 that the fixed-width integers need.
pub proof fn lemma_pow256_values()
    ensures
        pow256(0) == 1,
        pow256(1) == 0x100,
        pow256(2) == 0x1_0000,
        pow256(4) == 0x1_0000_0000,
        pow256(8) == 0x1_0000_0000_0000_0000,
        pow256(16) == 0x1_0000_0000_0000_0000_0000_0000_0000_0000,
{
    reveal_with_fuel(pow256, 17);
}

/// Powers of 256 grow with the exponent.
pub proof fn lemma_pow256_monotonic(a: nat, b: nat)
    requires
        a <= b,
    ensures
        0 < pow256(a) <= pow256(b),
    decreases b,
{
    if b == 0 {
    } else if a == b {
        lemma_pow256_monotonic((a - 1) as nat, (b - 1) as nat);
    } else {
        lemma_pow256_monotonic(a, (b - 1) as nat);
    }
}

/// An encoding has the width asked for.
pub proof fn lemma_le_bytes_len(value: nat, width: nat)
    ensures
        le_bytes(value, width).len() == width,
    decreases width,
{
    if width > 0 {
        lemma_le_bytes_len(value / 256, (width - 1) as nat);
    }
}

/// A byte string holds a number below 256 to the power of its length.
pub proof fn lemma_le_value_bound(bytes: Seq<u8>)
    ensures
        le_value(bytes) < pow256(bytes.len()),
    decreases bytes.len(),
{
    if bytes.len() > 0 {
        lemma_le_value_bound(bytes.drop_first());
    }
}

/// Decoding an encoding gives the number back, as far as the width holds it.
pub proof fn lemma_le_round_trip(value: nat, width: nat)
    ensures
        le_value(le_bytes(value, width)) == value % pow256(width),
    decreases width,
{
    if width == 0 {
    } else {
        let rest = le_bytes(value / 256, (width - 1) as nat);
        let all = le_bytes(value, width);
        lemma_le_round_trip(value / 256, (width - 1) as nat);
        assert(all.drop_first() =~= rest);
        let p = pow256((width - 1) as nat);
        lemma_pow256_monotonic(0, (width - 1) as nat);
        // value % (256 * p) == value % 256 + 256 * ((value / 256) % p)
        vstd::arithmetic::div_mod::lemma_breakdown(value as int, 256, p as int);
    }
}

/// A number that fits its width survives encoding and decoding.
pub proof fn lemma_le_round_trip_exact(value: nat, width: nat)
    requires
        value < pow256(width),
    ensures
        le_value(le_bytes(value, width)) == value,
        le_bytes(value, width).len() == width,
{
    lemma_le_round_trip(value, width);
    lemma_le_bytes_len(value, width);
    vstd::arithmetic::div_mod::lemma_small_mod(value, pow256(width));
}

/// Two's complement and back is the identity on the numbers that fit.
pub proof fn lemma_twos_round_trip(value: int, width: nat)
    requires
        -(pow256(width) as int) <= 2 * value < pow256(width),
    ensures
        to_twos(value, width) < pow256(width),
        from_twos(to_twos(value, width), width) == value,
{
}

/// Appends the low `width` bytes of `value`, least significant first.
pub fn put_le(out: &mut Vec<u8>, value: u128, width: usize)
    requires
        width <= 16,
    ensures
        final(out)@ == old(out)@ + le_bytes(value as nat, width as nat),
{
    let mut rest: u128 = value;
    let mut left: usize = width;
    assert(out@ + le_bytes(rest as nat, left as nat) =~= old(out)@ + le_bytes(
        value as nat,
        width as nat,
    ));
    while left > 0
        invariant
            out@ + le_bytes(rest as nat, left as nat) == old(out)@ + le_bytes(
                value as nat,
                width as nat,
            ),
        decreases left,
    {
        let ghost before = out@;
        let byte: u8 = (rest % 256) as u8;
        out.push(byte);
        proof {
            assert(le_bytes(rest as nat, left as nat) =~= seq![byte] + le_bytes(
                (rest / 256) as nat,
                (left - 1) as nat,
            ));
            assert(out@ + le_bytes((rest / 256) as nat, (left - 1) as nat) =~= before + le_bytes(
                rest as nat,
                left as nat,
            ));
        }
        rest = rest / 256;
        left = left - 1;
    }
    assert(out@ + le_bytes(rest as nat, 0) =~= out@);
}

/// The number held by the `width` bytes at `at`, least significant first.
pub fn read_le(bytes: &[u8], at: usize, width: usize) -> (value: u128)
    requires
        width <= 16,
        at + width <= bytes@.len(),
    ensures
        value == le_value(bytes@.subrange(at as int, at + width)),
{
    let len: usize = bytes.len();
    let mut value: u128 = 0;
    let mut i: usize = width;
    assert(bytes@.subrange(at + width, at + width).len() == 0);
    while i > 0
        invariant
            i <= width <= 16,
            at + width <= len == bytes@.len(),
            value == le_value(bytes@.subrange(at + i, at + width)),
        decreases i,
    {
        let byte: u8 = bytes[at + i - 1];
        proof {
            let tail = bytes@.subrange(at + i, at + width);
            let more = bytes@.subrange(at + i - 1, at + width);
            assert(more.drop_first() =~= tail);
            assert(more[0] == byte);
            lemma_le_value_bound(tail);
            lemma_le_value_bound(more);
            lemma_pow256_monotonic(more.len(), 16);
            lemma_pow256_values();
        }
        value = value * 256 + (byte as u128);
        i = i - 1;
    }
    value
}

/// Appends `n` zero bytes.
pub fn put_zeros(out: &mut Vec<u8>, n: usize)
    ensures
        final(out)@ == old(out)@ + zeros(n as nat),
{
    let mut i: usize = 0;
    assert(out@ =~= old(out)@ + zeros(0));
    while i < n
        invariant
            i <= n,
            out@ == old(out)@ + zeros(i as nat),
        decreases n - i,
    {
        out.push(0u8);
        assert(out@ =~= old(out)@ + zeros((i + 1) as nat));
        i += 1;
    }
}

/// Appends a byte string.
pub fn put_bytes(out: &mut Vec<u8>, bytes: &[u8])
    ensures
        final(out)@ == old(out)@ + bytes@,
{
    let mut i: usize = 0;
    assert(out@ =~= old(out)@ + bytes@.subrange(0, 0));
    while i < bytes.len()
        invariant
            i <= bytes@.len(),
            out@ == old(out)@ + bytes@.subrange(0, i as int),
        decreases bytes@.len() - i,
    {
        out.push(bytes[i]);
        assert(out@ =~= old(out)@ + bytes@.subrange(0, i + 1));
        i += 1;
    }
    assert(bytes@.subrange(0, bytes@.len() as int) =~= bytes@);
}

/// The bytes from `at` to `at + n`, copied.
pub fn copy_range(bytes: &[u8], at: usize, n: usize) -> (out: Vec<u8>)
    requires
        at + n <= bytes@.len(),
    ensures
        out@ == bytes@.subrange(at as int, at + n),
{
    let len: usize = bytes.len();
    let mut out: Vec<u8> = Vec::new();
    let mut i: usize = 0;
    assert(out@ =~= bytes@.subrange(at as int, at as int));
    while i < n
        invariant
            i <= n,
            at + n <= len == bytes@.len(),
            out@ == bytes@.subrange(at as int, at + i),
        decreases n - i,
    {
        out.push(bytes[at + i]);
        assert(out@ =~= bytes@.subrange(at as int, at + i + 1));
        i += 1;
    }
    out
}

/// The unsigned number held by the `width` bytes at `at`, least significant first.
pub open spec fn uint_at(bytes: Seq<u8>, at: int, width: int) -> nat {
    le_value(bytes.subrange(at, at + width))
}

/// The signed number held in two's complement by the `width` bytes at `at`.
pub open spec fn int_at(bytes: Seq<u8>, at: int, width: int) -> int {
    from_twos(uint_at(bytes, at, width), width as nat)
}

/// The flag held by the byte at `at`: any byte but zero stands for true.
pub open spec fn flag_at(bytes: Seq<u8>, at: int) -> bool {
    bytes[at] != 0
}

/// The byte that stands for a flag.
pub open spec fn flag_byte(flag: bool) -> u8 {
    if flag {
        1
    } else {
        0
    }
}

/// Appends one byte.
pub fn put_u8(out: &mut Vec<u8>, value: u8)
    ensures
        final(out)@ == old(out)@ + seq![value],
{
    out.push(value);
    assert(out@ =~= old(out)@ + seq![value]);
}

/// Appends a flag as one byte.
pub fn put_bool(out: &mut Vec<u8>, value: bool)
    ensures
        final(out)@ == old(out)@ + seq![flag_byte(value)],
{
    put_u8(
        out,
        if value {
            1
        } else {
            0
        },
    );
}

/// Appends a 16-bit number, least significant byte first.
pub fn put_u16(out: &mut Vec<u8>, value: u16)
    ensures
        final(out)@ == old(out)@ + le_bytes(value as nat, 2),
{
    put_le(out, value as u128, 2);
}

/// Appends a 32-bit number, least significant byte first.
pub fn put_u32(out: &mut Vec<u8>, value: u32)
    ensures
        final(out)@ == old(out)@ + le_bytes(value as nat, 4),
{
    put_le(out, value as u128, 4);
}

/// Appends a 64-bit number, least significant byte first.
pub fn put_u64(out: &mut Vec<u8>, value: u64)
    ensures
        final(out)@ == old(out)@ + le_bytes(value as nat, 8),
{
    put_le(out, value as u128, 8);
}

/// Appends a 128-bit number, least significant byte first.
pub fn put_u128(out: &mut Vec<u8>, value: u128)
    ensures
        final(out)@ == old(out)@ + le_bytes(value as nat, 16),
{
    put_le(out, value, 16);
}

/// The two's complement of a signed 32-bit number.
pub fn twos_i32(value: i32) -> (raw: u32)
    ensures
        raw == to_twos(value as int, 4),
{
    proof {
        lemma_pow256_values();
    }
    if value < 0 {
        ((value as i64) + 4294967296) as u32
    } else {
        value as u32
    }
}

/// The signed 32-bit number that a raw value stands for.
pub fn untwos_i32(raw: u32) -> (value: i32)
    ensures
        value == from_twos(raw as nat, 4),
{
    proof {
        lemma_pow256_values();
    }
    if raw >= 2147483648 {
        ((raw as i64) - 4294967296) as i32
    } else {
        raw as i32
    }
}

/// The two's complement of a signed 128-bit number.
pub fn twos_i128(value: i128) -> (raw: u128)
    ensures
        raw == to_twos(value as int, 16),
{
    proof {
        lemma_pow256_values();
    }
    if value < 0 {
        u128::MAX - ((-(value + 1)) as u128)
    } else {
        value as u128
    }
}

/// The signed 128-bit number that a raw value stands for.
pub fn untwos_i128(raw: u128) -> (value: i128)
    ensures
        value == from_twos(raw as nat, 16),
{
    proof {
        lemma_pow256_values();
    }
    if raw >= 170141183460469231731687303715884105728 {
        -((u128::MAX - raw) as i128) - 1
    } else {
        raw as i128
    }
}

/// Appends a signed 32-bit number in two's complement, least significant byte first.
pub fn put_i32(out: &mut Vec<u8>, value: i32)
    ensures
        final(out)@ == old(out)@ + le_bytes(to_twos(value as int, 4), 4),
{
    put_le(out, twos_i32(value) as u128, 4);
}

/// Appends a signed 128-bit number in two's complement, least significant byte first.
pub fn put_i128(out: &mut Vec<u8>, value: i128)
    ensures
        final(out)@ == old(out)@ + le_bytes(to_twos(value as int, 16), 16),
{
    put_le(out, twos_i128(value), 16);
}

/// Appends the 32 bytes of an address.
pub fn put_address(out: &mut Vec<u8>, address: &Address)
    ensures
        final(out)@ == old(out)@ + address@,
{
    put_bytes(out, address.bytes.as_slice());
}

/// The 16-bit number at `at`.
pub fn read_u16(bytes: &[u8], at: usize) -> (value: u16)
    requires
        at + 2 <= bytes@.len(),
    ensures
        value == uint_at(bytes@, at as int, 2),
{
    proof {
        lemma_le_value_bound(bytes@.subrange(at as int, at + 2));
        lemma_pow256_values();
    }
    read_le(bytes, at, 2) as u16
}

/// The 32-bit number at `at`.
pub fn read_u32(bytes: &[u8], at: usize) -> (value: u32)
    requires
        at + 4 <= bytes@.len(),
    ensures
        value == uint_at(bytes@, at as int, 4),
{
    proof {
        lemma_le_value_bound(bytes@.subrange(at as int, at + 4));
        lemma_pow256_values();
    }
    read_le(bytes, at, 4) as u32
}

/// The 64-bit number at `at`.
pub fn read_u64(bytes: &[u8], at: usize) -> (value: u64)
    requires
        at + 8 <= bytes@.len(),
    ensures
        value == uint_at(bytes@, at as int, 8),
{
    proof {
        lemma_le_value_bound(bytes@.subrange(at as int, at + 8));
        lemma_pow256_values();
    }
    read_le(bytes, at, 8) as u64
}

/// The 128-bit number at `at`.
pub fn read_u128(bytes: &[u8], at: usize) -> (value: u128)
    requires
        at + 16 <= bytes@.len(),
    ensures
        value == uint_at(bytes@, at as int, 16),
{
    read_le(bytes, at, 16)
}

/// The signed 32-bit number at `at`.
pub fn read_i32(bytes: &[u8], at: usize) -> (value: i32)
    requires
        at + 4 <= bytes@.len(),
    ensures
        value == int_at(bytes@, at as int, 4),
{
    untwos_i32(read_u32(bytes, at))
}

/// The signed 128-bit number at `at`.
pub fn read_i128(bytes: &[u8], at: usize) -> (value: i128)
    requires
        at + 16 <= bytes@.len(),
    ensures
        value == int_at(bytes@, at as int, 16),
{
    untwos_i128(read_u128(bytes, at))
}

/// The flag at `at`.
pub fn read_bool(bytes: &[u8], at: usize) -> (value: bool)
    requires
        at < bytes@.len(),
    ensures
        value == flag_at(bytes@, at as int),
{
    bytes[at] != 0
}

/// The address held by the 32 bytes at `at`.
pub fn read_address(bytes: &[u8], at: usize) -> (address: Address)
    requires
        at + 32 <= bytes@.len(),
    ensures
        address@ == bytes@.subrange(at as int, at + 32),
{
    let len: usize = bytes.len();
    let mut out = [0u8; 32];
    let mut i: usize = 0;
    while i < 32
        invariant
            i <= 32,
            at + 32 <= len == bytes@.len(),
            forall|j: int| 0 <= j < i ==> out@[j] == bytes@[at + j],
        decreases 32 - i,
    {
        out[i] = bytes[at + i];
        i += 1;
    }
    let address = Address { bytes: out };
    assert(address@ =~= bytes@.subrange(at as int, at + 32));
    address
}

/// The low `width` bytes of `value`, most significant first.
pub fn be_vec(value: u128, width: usize) -> (out: Vec<u8>)
    requires
        width <= 16,
    ensures
        out@ == be_bytes(value as nat, width as nat),
{
    let mut le: Vec<u8> = Vec::new();
    put_le(&mut le, value, width);
    proof {
        lemma_le_bytes_len(value as nat, width as nat);
        assert(le@ =~= le_bytes(value as nat, width as nat));
    }
    let mut out: Vec<u8> = Vec::new();
    let mut i: usize = 0;
    while i < width
        invariant
            i <= width == le@.len(),
            out@.len() == i,
            forall|j: int| 0 <= j < i ==> out@[j] == le@[width - 1 - j],
        decreases width - i,
    {
        out.push(le[width - 1 - i]);
        i += 1;
    }
    assert(out@ =~= le@.reverse());
    out
}

/// The address whose bytes are the 32 bytes at `at`.
pub open spec fn address_at(bytes: Seq<u8>, at: int) -> Address {
    choose|address: Address| address@ == bytes.subrange(at, at + 32)
}

/// An address with the 32 bytes at `at` is the address at `at`.
pub proof fn lemma_address_at(bytes: Seq<u8>, at: int, address: Address)
    requires
        address@ == bytes.subrange(at, at + 32),
    ensures
        address_at(bytes, at) == address,
{
    crate::address::lemma_address_ext(address_at(bytes, at), address);
}

/// The address held by the 32 bytes at `at`.
pub fn take_address(bytes: &[u8], at: usize) -> (address: Address)
    requires
        at + 32 <= bytes@.len(),
    ensures
        address == address_at(bytes@, at as int),
{
    let address = read_address(bytes, at);
    proof {
        lemma_address_at(bytes@, at as int, address);
    }
    address
}

} // verus!
