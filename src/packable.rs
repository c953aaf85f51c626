use vstd::arithmetic::div_mod::lemma_small_mod;
use vstd::prelude::*;

use crate::wide::{lemma_pow2_256, two_128, u256_of, u256_value, U256};
use crate::utils::{
    zigzag_decode_i128, zigzag_encode_i128,
    lemma_unzigzag_zigzag, lemma_zigzag_range, unzigzag, zigzag, zigzag_decode_i16,
    zigzag_decode_i32, zigzag_decode_i64, zigzag_decode_i8, zigzag_encode_i16, zigzag_encode_i32,
    zigzag_encode_i64, zigzag_encode_i8,
};

verus! {

/// Two values that pack into one value of type `Packed`, so that one varint carries both.
///
/// Every impl proves that unpacking a packed pair gives the pair back.
pub trait Packable<Rhs, Packed>: Sized {
    /// The packed form of `self` and `rhs`.
    spec fn spec_pack(&self, rhs: &Rhs) -> Packed;

    /// The pair that `packed` holds.
    spec fn spec_unpack(packed: Packed) -> (Self, Rhs);

    /// Unpacking the packed form of a pair gives the pair back.
    proof fn lemma_unpack_pack(&self, rhs: &Rhs)
        ensures
            Self::spec_unpack(self.spec_pack(rhs)) == (*self, *rhs),
    ;

    /// Packs the current value and the given `rhs` into a single value.
    fn pack(&self, rhs: &Rhs) -> (r: Packed)
        ensures
            r == self.spec_pack(rhs),
    ;

    /// Unpacks the packed value into the current type and the given `rhs`.
    fn unpack(packed: Packed) -> (r: (Self, Rhs))
        ensures
            r == Self::spec_unpack(packed),
    ;
}

/// `low` in the low `bits` bits and `high` above them.
pub open spec fn packed(low: nat, high: nat, bits: nat) -> nat {
    low + high * vstd::arithmetic::power2::pow2(bits)
}

/// The bounds of the narrow halves, as powers of two.
proof fn lemma_half_bounds()
    ensures
        vstd::arithmetic::power2::pow2(8) == 0x100,
        vstd::arithmetic::power2::pow2(16) == 0x1_0000,
        vstd::arithmetic::power2::pow2(32) == 0x1_0000_0000,
        vstd::arithmetic::power2::pow2(64) == 0x1_0000_0000_0000_0000,
{
    vstd::arithmetic::power2::lemma2_to64();
    vstd::arithmetic::power2::lemma2_to64_rest();
}

/// Packing is undone by splitting at `m`: the low part is the remainder, the high part the
/// quotient.
pub proof fn lemma_split_packed(low: nat, high: nat, m: nat)
    requires
        low < m,
    ensures
        (low + high * m) % m == low,
        (low + high * m) / m == high,
{
    vstd::arithmetic::div_mod::lemma_fundamental_div_mod_converse(
        (low + high * m) as int,
        m as int,
        high as int,
        low as int,
    );
}

/// Splitting a value at `m` and packing the parts gives it back.
pub proof fn lemma_pack_split(v: nat, m: nat)
    requires
        m > 0,
    ensures
        v == (v % m) + (v / m) * m,
{
    vstd::arithmetic::div_mod::lemma_fundamental_div_mod(v as int, m as int);
    vstd::arithmetic::mul::lemma_mul_is_commutative((v / m) as int, m as int);
}

/// Packs two `u8` into a `u16`: `low` in the low half, `high` in the high half.
pub fn pack_u8(low: u8, high: u8) -> (r: u16)
    ensures
        r as nat == packed(low as nat, high as nat, 8),
{
    proof {
        lemma_half_bounds();
    }
    low as u16 + (high as u16) * 0x100
}

/// Unpacks a `u16` into two `u8`: the low half and the high half.
pub fn unpack_u8(value: u16) -> (r: (u8, u8))
    ensures
        r.0 as nat == value as nat % 0x100,
        r.1 as nat == value as nat / 0x100,
        packed(r.0 as nat, r.1 as nat, 8) == value,
{
    proof {
        lemma_half_bounds();
        lemma_pack_split(value as nat, 0x100);
    }
    ((value % 0x100) as u8, (value / 0x100) as u8)
}

/// Packs two `i8` into a `u16`, zigzag encoding each first.
pub fn pack_i8(low: i8, high: i8) -> (r: u16)
    ensures
        r as nat == packed(zigzag(low as int), zigzag(high as int), 8),
{
    pack_u8(zigzag_encode_i8(low), zigzag_encode_i8(high))
}

/// Unpacks a `u16` into two `i8`, zigzag decoding each half.
pub fn unpack_i8(value: u16) -> (r: (i8, i8))
    ensures
        r.0 as int == unzigzag(value as nat % 0x100),
        r.1 as int == unzigzag(value as nat / 0x100),
{
    let (low, high) = unpack_u8(value);
    (zigzag_decode_i8(low), zigzag_decode_i8(high))
}

/// Packs `u8` and `i8` into a single `u16`: the unsigned value low, the zigzag encoded
/// signed value high.
pub fn pack_u8_i8(a: u8, b: i8) -> (r: u16)
    ensures
        r as nat == packed(a as nat, zigzag(b as int), 8),
{
    pack_u8(a, zigzag_encode_i8(b))
}

/// Packs `i8` and `u8` into a single `u16`: the unsigned value low, the zigzag encoded
/// signed value high.
pub fn pack_i8_u8(a: i8, b: u8) -> (r: u16)
    ensures
        r as nat == packed(b as nat, zigzag(a as int), 8),
{
    pack_u8_i8(b, a)
}

/// Unpacks a `u16` into `u8` and `i8` values.
pub fn unpack_u8_i8(packed: u16) -> (r: (u8, i8))
    ensures
        r.0 as nat == packed as nat % 0x100,
        r.1 as int == unzigzag(packed as nat / 0x100),
{
    let (a, b) = unpack_u8(packed);
    (a, zigzag_decode_i8(b))
}

/// Unpacks a `u16` into `i8` and `u8` values.
pub fn unpack_i8_u8(packed: u16) -> (r: (i8, u8))
    ensures
        r.0 as int == unzigzag(packed as nat / 0x100),
        r.1 as nat == packed as nat % 0x100,
{
    let (a, b) = unpack_u8_i8(packed);
    (b, a)
}

impl Packable<u8, u16> for u8 {
    open spec fn spec_pack(&self, rhs: &u8) -> u16 {
        packed(*self as nat, *rhs as nat, 8) as u16
    }

    open spec fn spec_unpack(packed: u16) -> (u8, u8) {
        ((packed % 0x100) as u8, (packed / 0x100) as u8)
    }

    proof fn lemma_unpack_pack(&self, rhs: &u8) {
        lemma_half_bounds();
        lemma_split_packed(*self as nat, *rhs as nat, 0x100);
    }

    fn pack(&self, rhs: &u8) -> (r: u16) {
        pack_u8(*self, *rhs)
    }

    fn unpack(packed: u16) -> (r: (u8, u8)) {
        unpack_u8(packed)
    }
}

impl Packable<i8, u16> for i8 {
    open spec fn spec_pack(&self, rhs: &i8) -> u16 {
        packed(zigzag(*self as int), zigzag(*rhs as int), 8) as u16
    }

    open spec fn spec_unpack(packed: u16) -> (i8, i8) {
        (unzigzag(packed as nat % 0x100) as i8, unzigzag(packed as nat / 0x100) as i8)
    }

    proof fn lemma_unpack_pack(&self, rhs: &i8) {
        lemma_half_bounds();
        lemma_zigzag_range(*self as int, 0x80);
        lemma_zigzag_range(*rhs as int, 0x80);
        lemma_split_packed(zigzag(*self as int), zigzag(*rhs as int), 0x100);
        lemma_unzigzag_zigzag(*self as int);
        lemma_unzigzag_zigzag(*rhs as int);
    }

    fn pack(&self, rhs: &i8) -> (r: u16) {
        pack_i8(*self, *rhs)
    }

    fn unpack(packed: u16) -> (r: (i8, i8)) {
        unpack_i8(packed)
    }
}

impl Packable<i8, u16> for u8 {
    open spec fn spec_pack(&self, rhs: &i8) -> u16 {
        packed(*self as nat, zigzag(*rhs as int), 8) as u16
    }

    open spec fn spec_unpack(packed: u16) -> (u8, i8) {
        ((packed % 0x100) as u8, unzigzag(packed as nat / 0x100) as i8)
    }

    proof fn lemma_unpack_pack(&self, rhs: &i8) {
        lemma_half_bounds();
        lemma_zigzag_range(*rhs as int, 0x80);
        lemma_split_packed(*self as nat, zigzag(*rhs as int), 0x100);
        lemma_unzigzag_zigzag(*rhs as int);
    }

    fn pack(&self, rhs: &i8) -> (r: u16) {
        pack_u8_i8(*self, *rhs)
    }

    fn unpack(packed: u16) -> (r: (u8, i8)) {
        unpack_u8_i8(packed)
    }
}

impl Packable<u8, u16> for i8 {
    open spec fn spec_pack(&self, rhs: &u8) -> u16 {
        packed(*rhs as nat, zigzag(*self as int), 8) as u16
    }

    open spec fn spec_unpack(packed: u16) -> (i8, u8) {
        (unzigzag(packed as nat / 0x100) as i8, (packed % 0x100) as u8)
    }

    proof fn lemma_unpack_pack(&self, rhs: &u8) {
        lemma_half_bounds();
        lemma_zigzag_range(*self as int, 0x80);
        lemma_split_packed(*rhs as nat, zigzag(*self as int), 0x100);
        lemma_unzigzag_zigzag(*self as int);
    }

    fn pack(&self, rhs: &u8) -> (r: u16) {
        pack_i8_u8(*self, *rhs)
    }

    fn unpack(packed: u16) -> (r: (i8, u8)) {
        unpack_i8_u8(packed)
    }
}

/// Packs two `u16` into a `u32`: `low` in the low half, `high` in the high half.
pub fn pack_u16(low: u16, high: u16) -> (r: u32)
    ensures
        r as nat == packed(low as nat, high as nat, 16),
{
    proof {
        lemma_half_bounds();
    }
    low as u32 + (high as u32) * 0x10000
}

/// Unpacks a `u32` into two `u16`: the low half and the high half.
pub fn unpack_u16(value: u32) -> (r: (u16, u16))
    ensures
        r.0 as nat == value as nat % 0x10000,
        r.1 as nat == value as nat / 0x10000,
        packed(r.0 as nat, r.1 as nat, 16) == value,
{
    proof {
        lemma_half_bounds();
        lemma_pack_split(value as nat, 0x10000);
    }
    ((value % 0x10000) as u16, (value / 0x10000) as u16)
}

/// Packs two `i16` into a `u32`, zigzag encoding each first.
pub fn pack_i16(low: i16, high: i16) -> (r: u32)
    ensures
        r as nat == packed(zigzag(low as int), zigzag(high as int), 16),
{
    pack_u16(zigzag_encode_i16(low), zigzag_encode_i16(high))
}

/// Unpacks a `u32` into two `i16`, zigzag decoding each half.
pub fn unpack_i16(value: u32) -> (r: (i16, i16))
    ensures
        r.0 as int == unzigzag(value as nat % 0x10000),
        r.1 as int == unzigzag(value as nat / 0x10000),
{
    let (low, high) = unpack_u16(value);
    (zigzag_decode_i16(low), zigzag_decode_i16(high))
}

/// Packs `u16` and `i16` into a single `u32`: the unsigned value low, the zigzag encoded
/// signed value high.
pub fn pack_u16_i16(a: u16, b: i16) -> (r: u32)
    ensures
        r as nat == packed(a as nat, zigzag(b as int), 16),
{
    pack_u16(a, zigzag_encode_i16(b))
}

/// Packs `i16` and `u16` into a single `u32`: the unsigned value low, the zigzag encoded
/// signed value high.
pub fn pack_i16_u16(a: i16, b: u16) -> (r: u32)
    ensures
        r as nat == packed(b as nat, zigzag(a as int), 16),
{
    pack_u16_i16(b, a)
}

/// Unpacks a `u32` into `u16` and `i16` values.
pub fn unpack_u16_i16(packed: u32) -> (r: (u16, i16))
    ensures
        r.0 as nat == packed as nat % 0x10000,
        r.1 as int == unzigzag(packed as nat / 0x10000),
{
    let (a, b) = unpack_u16(packed);
    (a, zigzag_decode_i16(b))
}

/// Unpacks a `u32` into `i16` and `u16` values.
pub fn unpack_i16_u16(packed: u32) -> (r: (i16, u16))
    ensures
        r.0 as int == unzigzag(packed as nat / 0x10000),
        r.1 as nat == packed as nat % 0x10000,
{
    let (a, b) = unpack_u16_i16(packed);
    (b, a)
}

impl Packable<u16, u32> for u16 {
    open spec fn spec_pack(&self, rhs: &u16) -> u32 {
        packed(*self as nat, *rhs as nat, 16) as u32
    }

    open spec fn spec_unpack(packed: u32) -> (u16, u16) {
        ((packed % 0x10000) as u16, (packed / 0x10000) as u16)
    }

    proof fn lemma_unpack_pack(&self, rhs: &u16) {
        lemma_half_bounds();
        lemma_split_packed(*self as nat, *rhs as nat, 0x10000);
    }

    fn pack(&self, rhs: &u16) -> (r: u32) {
        pack_u16(*self, *rhs)
    }

    fn unpack(packed: u32) -> (r: (u16, u16)) {
        unpack_u16(packed)
    }
}

impl Packable<i16, u32> for i16 {
    open spec fn spec_pack(&self, rhs: &i16) -> u32 {
        packed(zigzag(*self as int), zigzag(*rhs as int), 16) as u32
    }

    open spec fn spec_unpack(packed: u32) -> (i16, i16) {
        (unzigzag(packed as nat % 0x10000) as i16, unzigzag(packed as nat / 0x10000) as i16)
    }

    proof fn lemma_unpack_pack(&self, rhs: &i16) {
        lemma_half_bounds();
        lemma_zigzag_range(*self as int, 0x8000);
        lemma_zigzag_range(*rhs as int, 0x8000);
        lemma_split_packed(zigzag(*self as int), zigzag(*rhs as int), 0x10000);
        lemma_unzigzag_zigzag(*self as int);
        lemma_unzigzag_zigzag(*rhs as int);
    }

    fn pack(&self, rhs: &i16) -> (r: u32) {
        pack_i16(*self, *rhs)
    }

    fn unpack(packed: u32) -> (r: (i16, i16)) {
        unpack_i16(packed)
    }
}

impl Packable<i16, u32> for u16 {
    open spec fn spec_pack(&self, rhs: &i16) -> u32 {
        packed(*self as nat, zigzag(*rhs as int), 16) as u32
    }

    open spec fn spec_unpack(packed: u32) -> (u16, i16) {
        ((packed % 0x10000) as u16, unzigzag(packed as nat / 0x10000) as i16)
    }

    proof fn lemma_unpack_pack(&self, rhs: &i16) {
        lemma_half_bounds();
        lemma_zigzag_range(*rhs as int, 0x8000);
        lemma_split_packed(*self as nat, zigzag(*rhs as int), 0x10000);
        lemma_unzigzag_zigzag(*rhs as int);
    }

    fn pack(&self, rhs: &i16) -> (r: u32) {
        pack_u16_i16(*self, *rhs)
    }

    fn unpack(packed: u32) -> (r: (u16, i16)) {
        unpack_u16_i16(packed)
    }
}

impl Packable<u16, u32> for i16 {
    open spec fn spec_pack(&self, rhs: &u16) -> u32 {
        packed(*rhs as nat, zigzag(*self as int), 16) as u32
    }

    open spec fn spec_unpack(packed: u32) -> (i16, u16) {
        (unzigzag(packed as nat / 0x10000) as i16, (packed % 0x10000) as u16)
    }

    proof fn lemma_unpack_pack(&self, rhs: &u16) {
        lemma_half_bounds();
        lemma_zigzag_range(*self as int, 0x8000);
        lemma_split_packed(*rhs as nat, zigzag(*self as int), 0x10000);
        lemma_unzigzag_zigzag(*self as int);
    }

    fn pack(&self, rhs: &u16) -> (r: u32) {
        pack_i16_u16(*self, *rhs)
    }

    fn unpack(packed: u32) -> (r: (i16, u16)) {
        unpack_i16_u16(packed)
    }
}

/// Packs two `u32` into a `u64`: `low` in the low half, `high` in the high half.
pub fn pack_u32(low: u32, high: u32) -> (r: u64)
    ensures
        r as nat == packed(low as nat, high as nat, 32),
{
    proof {
        lemma_half_bounds();
    }
    low as u64 + (high as u64) * 0x100000000
}

/// Unpacks a `u64` into two `u32`: the low half and the high half.
pub fn unpack_u32(value: u64) -> (r: (u32, u32))
    ensures
        r.0 as nat == value as nat % 0x100000000,
        r.1 as nat == value as nat / 0x100000000,
        packed(r.0 as nat, r.1 as nat, 32) == value,
{
    proof {
        lemma_half_bounds();
        lemma_pack_split(value as nat, 0x100000000);
    }
    ((value % 0x100000000) as u32, (value / 0x100000000) as u32)
}

/// Packs two `i32` into a `u64`, zigzag encoding each first.
pub fn pack_i32(low: i32, high: i32) -> (r: u64)
    ensures
        r as nat == packed(zigzag(low as int), zigzag(high as int), 32),
{
    pack_u32(zigzag_encode_i32(low), zigzag_encode_i32(high))
}

/// Unpacks a `u64` into two `i32`, zigzag decoding each half.
pub fn unpack_i32(value: u64) -> (r: (i32, i32))
    ensures
        r.0 as int == unzigzag(value as nat % 0x100000000),
        r.1 as int == unzigzag(value as nat / 0x100000000),
{
    let (low, high) = unpack_u32(value);
    (zigzag_decode_i32(low), zigzag_decode_i32(high))
}

/// Packs `u32` and `i32` into a single `u64`: the unsigned value low, the zigzag encoded
/// signed value high.
pub fn pack_u32_i32(a: u32, b: i32) -> (r: u64)
    ensures
        r as nat == packed(a as nat, zigzag(b as int), 32),
{
    pack_u32(a, zigzag_encode_i32(b))
}

/// Packs `i32` and `u32` into a single `u64`: the unsigned value low, the zigzag encoded
/// signed value high.
pub fn pack_i32_u32(a: i32, b: u32) -> (r: u64)
    ensures
        r as nat == packed(b as nat, zigzag(a as int), 32),
{
    pack_u32_i32(b, a)
}

/// Unpacks a `u64` into `u32` and `i32` values.
pub fn unpack_u32_i32(packed: u64) -> (r: (u32, i32))
    ensures
        r.0 as nat == packed as nat % 0x100000000,
        r.1 as int == unzigzag(packed as nat / 0x100000000),
{
    let (a, b) = unpack_u32(packed);
    (a, zigzag_decode_i32(b))
}

/// Unpacks a `u64` into `i32` and `u32` values.
pub fn unpack_i32_u32(packed: u64) -> (r: (i32, u32))
    ensures
        r.0 as int == unzigzag(packed as nat / 0x100000000),
        r.1 as nat == packed as nat % 0x100000000,
{
    let (a, b) = unpack_u32_i32(packed);
    (b, a)
}

impl Packable<u32, u64> for u32 {
    open spec fn spec_pack(&self, rhs: &u32) -> u64 {
        packed(*self as nat, *rhs as nat, 32) as u64
    }

    open spec fn spec_unpack(packed: u64) -> (u32, u32) {
        ((packed % 0x100000000) as u32, (packed / 0x100000000) as u32)
    }

    proof fn lemma_unpack_pack(&self, rhs: &u32) {
        lemma_half_bounds();
        lemma_split_packed(*self as nat, *rhs as nat, 0x100000000);
    }

    fn pack(&self, rhs: &u32) -> (r: u64) {
        pack_u32(*self, *rhs)
    }

    fn unpack(packed: u64) -> (r: (u32, u32)) {
        unpack_u32(packed)
    }
}

impl Packable<i32, u64> for i32 {
    open spec fn spec_pack(&self, rhs: &i32) -> u64 {
        packed(zigzag(*self as int), zigzag(*rhs as int), 32) as u64
    }

    open spec fn spec_unpack(packed: u64) -> (i32, i32) {
        (unzigzag(packed as nat % 0x100000000) as i32, unzigzag(packed as nat / 0x100000000) as i32)
    }

    proof fn lemma_unpack_pack(&self, rhs: &i32) {
        lemma_half_bounds();
        lemma_zigzag_range(*self as int, 0x80000000);
        lemma_zigzag_range(*rhs as int, 0x80000000);
        lemma_split_packed(zigzag(*self as int), zigzag(*rhs as int), 0x100000000);
        lemma_unzigzag_zigzag(*self as int);
        lemma_unzigzag_zigzag(*rhs as int);
    }

    fn pack(&self, rhs: &i32) -> (r: u64) {
        pack_i32(*self, *rhs)
    }

    fn unpack(packed: u64) -> (r: (i32, i32)) {
        unpack_i32(packed)
    }
}

impl Packable<i32, u64> for u32 {
    open spec fn spec_pack(&self, rhs: &i32) -> u64 {
        packed(*self as nat, zigzag(*rhs as int), 32) as u64
    }

    open spec fn spec_unpack(packed: u64) -> (u32, i32) {
        ((packed % 0x100000000) as u32, unzigzag(packed as nat / 0x100000000) as i32)
    }

    proof fn lemma_unpack_pack(&self, rhs: &i32) {
        lemma_half_bounds();
        lemma_zigzag_range(*rhs as int, 0x80000000);
        lemma_split_packed(*self as nat, zigzag(*rhs as int), 0x100000000);
        lemma_unzigzag_zigzag(*rhs as int);
    }

    fn pack(&self, rhs: &i32) -> (r: u64) {
        pack_u32_i32(*self, *rhs)
    }

    fn unpack(packed: u64) -> (r: (u32, i32)) {
        unpack_u32_i32(packed)
    }
}

impl Packable<u32, u64> for i32 {
    open spec fn spec_pack(&self, rhs: &u32) -> u64 {
        packed(*rhs as nat, zigzag(*self as int), 32) as u64
    }

    open spec fn spec_unpack(packed: u64) -> (i32, u32) {
        (unzigzag(packed as nat / 0x100000000) as i32, (packed % 0x100000000) as u32)
    }

    proof fn lemma_unpack_pack(&self, rhs: &u32) {
        lemma_half_bounds();
        lemma_zigzag_range(*self as int, 0x80000000);
        lemma_split_packed(*rhs as nat, zigzag(*self as int), 0x100000000);
        lemma_unzigzag_zigzag(*self as int);
    }

    fn pack(&self, rhs: &u32) -> (r: u64) {
        pack_i32_u32(*self, *rhs)
    }

    fn unpack(packed: u64) -> (r: (i32, u32)) {
        unpack_i32_u32(packed)
    }
}

/// Packs two `u64` into a `u128`: `low` in the low half, `high` in the high half.
pub fn pack_u64(low: u64, high: u64) -> (r: u128)
    ensures
        r as nat == packed(low as nat, high as nat, 64),
{
    proof {
        lemma_half_bounds();
    }
    low as u128 + (high as u128) * 0x10000000000000000
}

/// Unpacks a `u128` into two `u64`: the low half and the high half.
pub fn unpack_u64(value: u128) -> (r: (u64, u64))
    ensures
        r.0 as nat == value as nat % 0x10000000000000000,
        r.1 as nat == value as nat / 0x10000000000000000,
        packed(r.0 as nat, r.1 as nat, 64) == value,
{
    proof {
        lemma_half_bounds();
        lemma_pack_split(value as nat, 0x10000000000000000);
    }
    ((value % 0x10000000000000000) as u64, (value / 0x10000000000000000) as u64)
}

/// Packs two `i64` into a `u128`, zigzag encoding each first.
pub fn pack_i64(low: i64, high: i64) -> (r: u128)
    ensures
        r as nat == packed(zigzag(low as int), zigzag(high as int), 64),
{
    pack_u64(zigzag_encode_i64(low), zigzag_encode_i64(high))
}

/// Unpacks a `u128` into two `i64`, zigzag decoding each half.
pub fn unpack_i64(value: u128) -> (r: (i64, i64))
    ensures
        r.0 as int == unzigzag(value as nat % 0x10000000000000000),
        r.1 as int == unzigzag(value as nat / 0x10000000000000000),
{
    let (low, high) = unpack_u64(value);
    (zigzag_decode_i64(low), zigzag_decode_i64(high))
}

/// Packs `u64` and `i64` into a single `u128`: the unsigned value low, the zigzag encoded
/// signed value high.
pub fn pack_u64_i64(a: u64, b: i64) -> (r: u128)
    ensures
        r as nat == packed(a as nat, zigzag(b as int), 64),
{
    pack_u64(a, zigzag_encode_i64(b))
}

/// Packs `i64` and `u64` into a single `u128`: the unsigned value low, the zigzag encoded
/// signed value high.
pub fn pack_i64_u64(a: i64, b: u64) -> (r: u128)
    ensures
        r as nat == packed(b as nat, zigzag(a as int), 64),
{
    pack_u64_i64(b, a)
}

/// Unpacks a `u128` into `u64` and `i64` values.
pub fn unpack_u64_i64(packed: u128) -> (r: (u64, i64))
    ensures
        r.0 as nat == packed as nat % 0x10000000000000000,
        r.1 as int == unzigzag(packed as nat / 0x10000000000000000),
{
    let (a, b) = unpack_u64(packed);
    (a, zigzag_decode_i64(b))
}

/// Unpacks a `u128` into `i64` and `u64` values.
pub fn unpack_i64_u64(packed: u128) -> (r: (i64, u64))
    ensures
        r.0 as int == unzigzag(packed as nat / 0x10000000000000000),
        r.1 as nat == packed as nat % 0x10000000000000000,
{
    let (a, b) = unpack_u64_i64(packed);
    (b, a)
}

impl Packable<u64, u128> for u64 {
    open spec fn spec_pack(&self, rhs: &u64) -> u128 {
        packed(*self as nat, *rhs as nat, 64) as u128
    }

    open spec fn spec_unpack(packed: u128) -> (u64, u64) {
        ((packed % 0x10000000000000000) as u64, (packed / 0x10000000000000000) as u64)
    }

    proof fn lemma_unpack_pack(&self, rhs: &u64) {
        lemma_half_bounds();
        lemma_split_packed(*self as nat, *rhs as nat, 0x10000000000000000);
    }

    fn pack(&self, rhs: &u64) -> (r: u128) {
        pack_u64(*self, *rhs)
    }

    fn unpack(packed: u128) -> (r: (u64, u64)) {
        unpack_u64(packed)
    }
}

impl Packable<i64, u128> for i64 {
    open spec fn spec_pack(&self, rhs: &i64) -> u128 {
        packed(zigzag(*self as int), zigzag(*rhs as int), 64) as u128
    }

    open spec fn spec_unpack(packed: u128) -> (i64, i64) {
        (unzigzag(packed as nat % 0x10000000000000000) as i64, unzigzag(packed as nat / 0x10000000000000000) as i64)
    }

    proof fn lemma_unpack_pack(&self, rhs: &i64) {
        lemma_half_bounds();
        lemma_zigzag_range(*self as int, 0x8000000000000000);
        lemma_zigzag_range(*rhs as int, 0x8000000000000000);
        lemma_split_packed(zigzag(*self as int), zigzag(*rhs as int), 0x10000000000000000);
        lemma_unzigzag_zigzag(*self as int);
        lemma_unzigzag_zigzag(*rhs as int);
    }

    fn pack(&self, rhs: &i64) -> (r: u128) {
        pack_i64(*self, *rhs)
    }

    fn unpack(packed: u128) -> (r: (i64, i64)) {
        unpack_i64(packed)
    }
}

impl Packable<i64, u128> for u64 {
    open spec fn spec_pack(&self, rhs: &i64) -> u128 {
        packed(*self as nat, zigzag(*rhs as int), 64) as u128
    }

    open spec fn spec_unpack(packed: u128) -> (u64, i64) {
        ((packed % 0x10000000000000000) as u64, unzigzag(packed as nat / 0x10000000000000000) as i64)
    }

    proof fn lemma_unpack_pack(&self, rhs: &i64) {
        lemma_half_bounds();
        lemma_zigzag_range(*rhs as int, 0x8000000000000000);
        lemma_split_packed(*self as nat, zigzag(*rhs as int), 0x10000000000000000);
        lemma_unzigzag_zigzag(*rhs as int);
    }

    fn pack(&self, rhs: &i64) -> (r: u128) {
        pack_u64_i64(*self, *rhs)
    }

    fn unpack(packed: u128) -> (r: (u64, i64)) {
        unpack_u64_i64(packed)
    }
}

impl Packable<u64, u128> for i64 {
    open spec fn spec_pack(&self, rhs: &u64) -> u128 {
        packed(*rhs as nat, zigzag(*self as int), 64) as u128
    }

    open spec fn spec_unpack(packed: u128) -> (i64, u64) {
        (unzigzag(packed as nat / 0x10000000000000000) as i64, (packed % 0x10000000000000000) as u64)
    }

    proof fn lemma_unpack_pack(&self, rhs: &u64) {
        lemma_half_bounds();
        lemma_zigzag_range(*self as int, 0x8000000000000000);
        lemma_split_packed(*rhs as nat, zigzag(*self as int), 0x10000000000000000);
        lemma_unzigzag_zigzag(*self as int);
    }

    fn pack(&self, rhs: &u64) -> (r: u128) {
        pack_i64_u64(*self, *rhs)
    }

    fn unpack(packed: u128) -> (r: (i64, u64)) {
        unpack_i64_u64(packed)
    }
}

/// Packs `u8` and `u16` into a single `u32`: the narrower `a` in the low 8 bits, `b` above.
pub fn pack_u8_u16(a: u8, b: u16) -> (r: u32)
    ensures
        r as nat == packed(a as nat, b as nat, 8),
{
    proof {
        lemma_half_bounds();
    }
    a as u32 + (b as u32) * 0x100
}

/// Packs `u16` and `u8` into a single `u32`: the narrower `b` in the low 8 bits, `a` above.
pub fn pack_u16_u8(a: u16, b: u8) -> (r: u32)
    ensures
        r as nat == packed(b as nat, a as nat, 8),
{
    pack_u8_u16(b, a)
}

/// Unpacks a `u32` into `u8` and `u16` values: the low 8 bits, and the 16 bits above them.
pub fn unpack_u8_u16(packed: u32) -> (r: (u8, u16))
    ensures
        r.0 as nat == packed as nat % 0x100,
        r.1 as nat == (packed as nat / 0x100) % 0x10000,
{
    proof {
        lemma_half_bounds();
    }
    ((packed % 0x100) as u8, ((packed / 0x100) % 0x10000) as u16)
}

/// Unpacks a `u32` into `u16` and `u8` values: the 16 bits above the low 8, and the low 8.
pub fn unpack_u16_u8(packed: u32) -> (r: (u16, u8))
    ensures
        r.0 as nat == (packed as nat / 0x100) % 0x10000,
        r.1 as nat == packed as nat % 0x100,
{
    let (a, b) = unpack_u8_u16(packed);
    (b, a)
}

/// Packs `i8` and `i16` into a single `u32`, zigzag encoding each first; `a` goes low.
pub fn pack_i8_i16(a: i8, b: i16) -> (r: u32)
    ensures
        r as nat == packed(zigzag(a as int), zigzag(b as int), 8),
{
    pack_u8_u16(zigzag_encode_i8(a), zigzag_encode_i16(b))
}

/// Packs `i16` and `i8` into a single `u32`, zigzag encoding each first; `b` goes low.
pub fn pack_i16_i8(a: i16, b: i8) -> (r: u32)
    ensures
        r as nat == packed(zigzag(b as int), zigzag(a as int), 8),
{
    pack_i8_i16(b, a)
}

/// Unpacks a `u32` into `i8` and `i16` values, zigzag decoding each part.
pub fn unpack_i8_i16(packed: u32) -> (r: (i8, i16))
    ensures
        r.0 as int == unzigzag(packed as nat % 0x100),
        r.1 as int == unzigzag((packed as nat / 0x100) % 0x10000),
{
    let (a, b) = unpack_u8_u16(packed);
    (zigzag_decode_i8(a), zigzag_decode_i16(b))
}

/// Unpacks a `u32` into `i16` and `i8` values, zigzag decoding each part.
pub fn unpack_i16_i8(packed: u32) -> (r: (i16, i8))
    ensures
        r.0 as int == unzigzag((packed as nat / 0x100) % 0x10000),
        r.1 as int == unzigzag(packed as nat % 0x100),
{
    let (a, b) = unpack_i8_i16(packed);
    (b, a)
}

/// Packs `u8` and `i16` into a single `u32`: `a` low, the zigzag encoded `b` above.
pub fn pack_u8_i16(a: u8, b: i16) -> (r: u32)
    ensures
        r as nat == packed(a as nat, zigzag(b as int), 8),
{
    pack_u8_u16(a, zigzag_encode_i16(b))
}

/// Packs `i16` and `u8` into a single `u32`: `b` low, the zigzag encoded `a` above.
pub fn pack_i16_u8(a: i16, b: u8) -> (r: u32)
    ensures
        r as nat == packed(b as nat, zigzag(a as int), 8),
{
    pack_u8_i16(b, a)
}

/// Unpacks a `u32` into `u8` and `i16` values.
pub fn unpack_u8_i16(packed: u32) -> (r: (u8, i16))
    ensures
        r.0 as nat == packed as nat % 0x100,
        r.1 as int == unzigzag((packed as nat / 0x100) % 0x10000),
{
    let (a, b) = unpack_u8_u16(packed);
    (a, zigzag_decode_i16(b))
}

/// Unpacks a `u32` into `i16` and `u8` values.
pub fn unpack_i16_u8(packed: u32) -> (r: (i16, u8))
    ensures
        r.0 as int == unzigzag((packed as nat / 0x100) % 0x10000),
        r.1 as nat == packed as nat % 0x100,
{
    let (a, b) = unpack_u8_i16(packed);
    (b, a)
}

/// Packs `i8` and `u16` into a single `u32`: the zigzag encoded `a` low, `b` above.
pub fn pack_i8_u16(a: i8, b: u16) -> (r: u32)
    ensures
        r as nat == packed(zigzag(a as int), b as nat, 8),
{
    pack_u8_u16(zigzag_encode_i8(a), b)
}

/// Packs `u16` and `i8` into a single `u32`: the zigzag encoded `b` low, `a` above.
pub fn pack_u16_i8(a: u16, b: i8) -> (r: u32)
    ensures
        r as nat == packed(zigzag(b as int), a as nat, 8),
{
    pack_i8_u16(b, a)
}

/// Unpacks a `u32` into `i8` and `u16` values.
pub fn unpack_i8_u16(packed: u32) -> (r: (i8, u16))
    ensures
        r.0 as int == unzigzag(packed as nat % 0x100),
        r.1 as nat == (packed as nat / 0x100) % 0x10000,
{
    let (a, b) = unpack_u8_u16(packed);
    (zigzag_decode_i8(a), b)
}

/// Unpacks a `u32` into `u16` and `i8` values.
pub fn unpack_u16_i8(packed: u32) -> (r: (u16, i8))
    ensures
        r.0 as nat == (packed as nat / 0x100) % 0x10000,
        r.1 as int == unzigzag(packed as nat % 0x100),
{
    let (a, b) = unpack_i8_u16(packed);
    (b, a)
}

impl Packable<u16, u32> for u8 {
    open spec fn spec_pack(&self, rhs: &u16) -> u32 {
        packed(*self as nat, *rhs as nat, 8) as u32
    }

    open spec fn spec_unpack(packed: u32) -> (u8, u16) {
        ((packed as nat % 0x100) as u8, ((packed as nat / 0x100) % 0x10000) as u16)
    }

    proof fn lemma_unpack_pack(&self, rhs: &u16) {
        lemma_half_bounds();
        lemma_split_packed(*self as nat, *rhs as nat, 0x100);
        lemma_small_mod(*rhs as nat, 0x10000);
    }

    fn pack(&self, rhs: &u16) -> (r: u32) {
        pack_u8_u16(*self, *rhs)
    }

    fn unpack(packed: u32) -> (r: (u8, u16)) {
        unpack_u8_u16(packed)
    }
}

impl Packable<u8, u32> for u16 {
    open spec fn spec_pack(&self, rhs: &u8) -> u32 {
        packed(*rhs as nat, *self as nat, 8) as u32
    }

    open spec fn spec_unpack(packed: u32) -> (u16, u8) {
        (((packed as nat / 0x100) % 0x10000) as u16, (packed as nat % 0x100) as u8)
    }

    proof fn lemma_unpack_pack(&self, rhs: &u8) {
        lemma_half_bounds();
        lemma_split_packed(*rhs as nat, *self as nat, 0x100);
        lemma_small_mod(*self as nat, 0x10000);
    }

    fn pack(&self, rhs: &u8) -> (r: u32) {
        pack_u16_u8(*self, *rhs)
    }

    fn unpack(packed: u32) -> (r: (u16, u8)) {
        unpack_u16_u8(packed)
    }
}

impl Packable<i16, u32> for i8 {
    open spec fn spec_pack(&self, rhs: &i16) -> u32 {
        packed(zigzag(*self as int), zigzag(*rhs as int), 8) as u32
    }

    open spec fn spec_unpack(packed: u32) -> (i8, i16) {
        (unzigzag(packed as nat % 0x100) as i8, unzigzag((packed as nat / 0x100) % 0x10000) as i16)
    }

    proof fn lemma_unpack_pack(&self, rhs: &i16) {
        lemma_half_bounds();
        lemma_zigzag_range(*self as int, 0x80);
        lemma_zigzag_range(*rhs as int, 0x8000);
        lemma_split_packed(zigzag(*self as int), zigzag(*rhs as int), 0x100);
        lemma_small_mod(zigzag(*rhs as int), 0x10000);
        lemma_unzigzag_zigzag(*self as int);
        lemma_unzigzag_zigzag(*rhs as int);
    }

    fn pack(&self, rhs: &i16) -> (r: u32) {
        pack_i8_i16(*self, *rhs)
    }

    fn unpack(packed: u32) -> (r: (i8, i16)) {
        unpack_i8_i16(packed)
    }
}

impl Packable<i8, u32> for i16 {
    open spec fn spec_pack(&self, rhs: &i8) -> u32 {
        packed(zigzag(*rhs as int), zigzag(*self as int), 8) as u32
    }

    open spec fn spec_unpack(packed: u32) -> (i16, i8) {
        (unzigzag((packed as nat / 0x100) % 0x10000) as i16, unzigzag(packed as nat % 0x100) as i8)
    }

    proof fn lemma_unpack_pack(&self, rhs: &i8) {
        lemma_half_bounds();
        lemma_zigzag_range(*rhs as int, 0x80);
        lemma_zigzag_range(*self as int, 0x8000);
        lemma_split_packed(zigzag(*rhs as int), zigzag(*self as int), 0x100);
        lemma_small_mod(zigzag(*self as int), 0x10000);
        lemma_unzigzag_zigzag(*self as int);
        lemma_unzigzag_zigzag(*rhs as int);
    }

    fn pack(&self, rhs: &i8) -> (r: u32) {
        pack_i16_i8(*self, *rhs)
    }

    fn unpack(packed: u32) -> (r: (i16, i8)) {
        unpack_i16_i8(packed)
    }
}

impl Packable<i16, u32> for u8 {
    open spec fn spec_pack(&self, rhs: &i16) -> u32 {
        packed(*self as nat, zigzag(*rhs as int), 8) as u32
    }

    open spec fn spec_unpack(packed: u32) -> (u8, i16) {
        ((packed as nat % 0x100) as u8, unzigzag((packed as nat / 0x100) % 0x10000) as i16)
    }

    proof fn lemma_unpack_pack(&self, rhs: &i16) {
        lemma_half_bounds();
        lemma_zigzag_range(*rhs as int, 0x8000);
        lemma_split_packed(*self as nat, zigzag(*rhs as int), 0x100);
        lemma_small_mod(zigzag(*rhs as int), 0x10000);
        lemma_unzigzag_zigzag(*rhs as int);
    }

    fn pack(&self, rhs: &i16) -> (r: u32) {
        pack_u8_i16(*self, *rhs)
    }

    fn unpack(packed: u32) -> (r: (u8, i16)) {
        unpack_u8_i16(packed)
    }
}

impl Packable<u8, u32> for i16 {
    open spec fn spec_pack(&self, rhs: &u8) -> u32 {
        packed(*rhs as nat, zigzag(*self as int), 8) as u32
    }

    open spec fn spec_unpack(packed: u32) -> (i16, u8) {
        (unzigzag((packed as nat / 0x100) % 0x10000) as i16, (packed as nat % 0x100) as u8)
    }

    proof fn lemma_unpack_pack(&self, rhs: &u8) {
        lemma_half_bounds();
        lemma_zigzag_range(*self as int, 0x8000);
        lemma_split_packed(*rhs as nat, zigzag(*self as int), 0x100);
        lemma_small_mod(zigzag(*self as int), 0x10000);
        lemma_unzigzag_zigzag(*self as int);
    }

    fn pack(&self, rhs: &u8) -> (r: u32) {
        pack_i16_u8(*self, *rhs)
    }

    fn unpack(packed: u32) -> (r: (i16, u8)) {
        unpack_i16_u8(packed)
    }
}

impl Packable<u16, u32> for i8 {
    open spec fn spec_pack(&self, rhs: &u16) -> u32 {
        packed(zigzag(*self as int), *rhs as nat, 8) as u32
    }

    open spec fn spec_unpack(packed: u32) -> (i8, u16) {
        (unzigzag(packed as nat % 0x100) as i8, ((packed as nat / 0x100) % 0x10000) as u16)
    }

    proof fn lemma_unpack_pack(&self, rhs: &u16) {
        lemma_half_bounds();
        lemma_zigzag_range(*self as int, 0x80);
        lemma_split_packed(zigzag(*self as int), *rhs as nat, 0x100);
        lemma_small_mod(*rhs as nat, 0x10000);
        lemma_unzigzag_zigzag(*self as int);
    }

    fn pack(&self, rhs: &u16) -> (r: u32) {
        pack_i8_u16(*self, *rhs)
    }

    fn unpack(packed: u32) -> (r: (i8, u16)) {
        unpack_i8_u16(packed)
    }
}

impl Packable<i8, u32> for u16 {
    open spec fn spec_pack(&self, rhs: &i8) -> u32 {
        packed(zigzag(*rhs as int), *self as nat, 8) as u32
    }

    open spec fn spec_unpack(packed: u32) -> (u16, i8) {
        (((packed as nat / 0x100) % 0x10000) as u16, unzigzag(packed as nat % 0x100) as i8)
    }

    proof fn lemma_unpack_pack(&self, rhs: &i8) {
        lemma_half_bounds();
        lemma_zigzag_range(*rhs as int, 0x80);
        lemma_split_packed(zigzag(*rhs as int), *self as nat, 0x100);
        lemma_small_mod(*self as nat, 0x10000);
        lemma_unzigzag_zigzag(*rhs as int);
    }

    fn pack(&self, rhs: &i8) -> (r: u32) {
        pack_u16_i8(*self, *rhs)
    }

    fn unpack(packed: u32) -> (r: (u16, i8)) {
        unpack_u16_i8(packed)
    }
}

/// Packs `u8` and `u32` into a single `u64`: the narrower `a` in the low 8 bits, `b` above.
pub fn pack_u8_u32(a: u8, b: u32) -> (r: u64)
    ensures
        r as nat == packed(a as nat, b as nat, 8),
{
    proof {
        lemma_half_bounds();
    }
    a as u64 + (b as u64) * 0x100
}

/// Packs `u32` and `u8` into a single `u64`: the narrower `b` in the low 8 bits, `a` above.
pub fn pack_u32_u8(a: u32, b: u8) -> (r: u64)
    ensures
        r as nat == packed(b as nat, a as nat, 8),
{
    pack_u8_u32(b, a)
}

/// Unpacks a `u64` into `u8` and `u32` values: the low 8 bits, and the 32 bits above them.
pub fn unpack_u8_u32(packed: u64) -> (r: (u8, u32))
    ensures
        r.0 as nat == packed as nat % 0x100,
        r.1 as nat == (packed as nat / 0x100) % 0x100000000,
{
    proof {
        lemma_half_bounds();
    }
    ((packed % 0x100) as u8, ((packed / 0x100) % 0x100000000) as u32)
}

/// Unpacks a `u64` into `u32` and `u8` values: the 32 bits above the low 8, and the low 8.
pub fn unpack_u32_u8(packed: u64) -> (r: (u32, u8))
    ensures
        r.0 as nat == (packed as nat / 0x100) % 0x100000000,
        r.1 as nat == packed as nat % 0x100,
{
    let (a, b) = unpack_u8_u32(packed);
    (b, a)
}

/// Packs `i8` and `i32` into a single `u64`, zigzag encoding each first; `a` goes low.
pub fn pack_i8_i32(a: i8, b: i32) -> (r: u64)
    ensures
        r as nat == packed(zigzag(a as int), zigzag(b as int), 8),
{
    pack_u8_u32(zigzag_encode_i8(a), zigzag_encode_i32(b))
}

/// Packs `i32` and `i8` into a single `u64`, zigzag encoding each first; `b` goes low.
pub fn pack_i32_i8(a: i32, b: i8) -> (r: u64)
    ensures
        r as nat == packed(zigzag(b as int), zigzag(a as int), 8),
{
    pack_i8_i32(b, a)
}

/// Unpacks a `u64` into `i8` and `i32` values, zigzag decoding each part.
pub fn unpack_i8_i32(packed: u64) -> (r: (i8, i32))
    ensures
        r.0 as int == unzigzag(packed as nat % 0x100),
        r.1 as int == unzigzag((packed as nat / 0x100) % 0x100000000),
{
    let (a, b) = unpack_u8_u32(packed);
    (zigzag_decode_i8(a), zigzag_decode_i32(b))
}

/// Unpacks a `u64` into `i32` and `i8` values, zigzag decoding each part.
pub fn unpack_i32_i8(packed: u64) -> (r: (i32, i8))
    ensures
        r.0 as int == unzigzag((packed as nat / 0x100) % 0x100000000),
        r.1 as int == unzigzag(packed as nat % 0x100),
{
    let (a, b) = unpack_i8_i32(packed);
    (b, a)
}

/// Packs `u8` and `i32` into a single `u64`: `a` low, the zigzag encoded `b` above.
pub fn pack_u8_i32(a: u8, b: i32) -> (r: u64)
    ensures
        r as nat == packed(a as nat, zigzag(b as int), 8),
{
    pack_u8_u32(a, zigzag_encode_i32(b))
}

/// Packs `i32` and `u8` into a single `u64`: `b` low, the zigzag encoded `a` above.
pub fn pack_i32_u8(a: i32, b: u8) -> (r: u64)
    ensures
        r as nat == packed(b as nat, zigzag(a as int), 8),
{
    pack_u8_i32(b, a)
}

/// Unpacks a `u64` into `u8` and `i32` values.
pub fn unpack_u8_i32(packed: u64) -> (r: (u8, i32))
    ensures
        r.0 as nat == packed as nat % 0x100,
        r.1 as int == unzigzag((packed as nat / 0x100) % 0x100000000),
{
    let (a, b) = unpack_u8_u32(packed);
    (a, zigzag_decode_i32(b))
}

/// Unpacks a `u64` into `i32` and `u8` values.
pub fn unpack_i32_u8(packed: u64) -> (r: (i32, u8))
    ensures
        r.0 as int == unzigzag((packed as nat / 0x100) % 0x100000000),
        r.1 as nat == packed as nat % 0x100,
{
    let (a, b) = unpack_u8_i32(packed);
    (b, a)
}

/// Packs `i8` and `u32` into a single `u64`: the zigzag encoded `a` low, `b` above.
pub fn pack_i8_u32(a: i8, b: u32) -> (r: u64)
    ensures
        r as nat == packed(zigzag(a as int), b as nat, 8),
{
    pack_u8_u32(zigzag_encode_i8(a), b)
}

/// Packs `u32` and `i8` into a single `u64`: the zigzag encoded `b` low, `a` above.
pub fn pack_u32_i8(a: u32, b: i8) -> (r: u64)
    ensures
        r as nat == packed(zigzag(b as int), a as nat, 8),
{
    pack_i8_u32(b, a)
}

/// Unpacks a `u64` into `i8` and `u32` values.
pub fn unpack_i8_u32(packed: u64) -> (r: (i8, u32))
    ensures
        r.0 as int == unzigzag(packed as nat % 0x100),
        r.1 as nat == (packed as nat / 0x100) % 0x100000000,
{
    let (a, b) = unpack_u8_u32(packed);
    (zigzag_decode_i8(a), b)
}

/// Unpacks a `u64` into `u32` and `i8` values.
pub fn unpack_u32_i8(packed: u64) -> (r: (u32, i8))
    ensures
        r.0 as nat == (packed as nat / 0x100) % 0x100000000,
        r.1 as int == unzigzag(packed as nat % 0x100),
{
    let (a, b) = unpack_i8_u32(packed);
    (b, a)
}

impl Packable<u32, u64> for u8 {
    open spec fn spec_pack(&self, rhs: &u32) -> u64 {
        packed(*self as nat, *rhs as nat, 8) as u64
    }

    open spec fn spec_unpack(packed: u64) -> (u8, u32) {
        ((packed as nat % 0x100) as u8, ((packed as nat / 0x100) % 0x100000000) as u32)
    }

    proof fn lemma_unpack_pack(&self, rhs: &u32) {
        lemma_half_bounds();
        lemma_split_packed(*self as nat, *rhs as nat, 0x100);
        lemma_small_mod(*rhs as nat, 0x100000000);
    }

    fn pack(&self, rhs: &u32) -> (r: u64) {
        pack_u8_u32(*self, *rhs)
    }

    fn unpack(packed: u64) -> (r: (u8, u32)) {
        unpack_u8_u32(packed)
    }
}

impl Packable<u8, u64> for u32 {
    open spec fn spec_pack(&self, rhs: &u8) -> u64 {
        packed(*rhs as nat, *self as nat, 8) as u64
    }

    open spec fn spec_unpack(packed: u64) -> (u32, u8) {
        (((packed as nat / 0x100) % 0x100000000) as u32, (packed as nat % 0x100) as u8)
    }

    proof fn lemma_unpack_pack(&self, rhs: &u8) {
        lemma_half_bounds();
        lemma_split_packed(*rhs as nat, *self as nat, 0x100);
        lemma_small_mod(*self as nat, 0x100000000);
    }

    fn pack(&self, rhs: &u8) -> (r: u64) {
        pack_u32_u8(*self, *rhs)
    }

    fn unpack(packed: u64) -> (r: (u32, u8)) {
        unpack_u32_u8(packed)
    }
}

impl Packable<i32, u64> for i8 {
    open spec fn spec_pack(&self, rhs: &i32) -> u64 {
        packed(zigzag(*self as int), zigzag(*rhs as int), 8) as u64
    }

    open spec fn spec_unpack(packed: u64) -> (i8, i32) {
        (unzigzag(packed as nat % 0x100) as i8, unzigzag((packed as nat / 0x100) % 0x100000000) as i32)
    }

    proof fn lemma_unpack_pack(&self, rhs: &i32) {
        lemma_half_bounds();
        lemma_zigzag_range(*self as int, 0x80);
        lemma_zigzag_range(*rhs as int, 0x80000000);
        lemma_split_packed(zigzag(*self as int), zigzag(*rhs as int), 0x100);
        lemma_small_mod(zigzag(*rhs as int), 0x100000000);
        lemma_unzigzag_zigzag(*self as int);
        lemma_unzigzag_zigzag(*rhs as int);
    }

    fn pack(&self, rhs: &i32) -> (r: u64) {
        pack_i8_i32(*self, *rhs)
    }

    fn unpack(packed: u64) -> (r: (i8, i32)) {
        unpack_i8_i32(packed)
    }
}

impl Packable<i8, u64> for i32 {
    open spec fn spec_pack(&self, rhs: &i8) -> u64 {
        packed(zigzag(*rhs as int), zigzag(*self as int), 8) as u64
    }

    open spec fn spec_unpack(packed: u64) -> (i32, i8) {
        (unzigzag((packed as nat / 0x100) % 0x100000000) as i32, unzigzag(packed as nat % 0x100) as i8)
    }

    proof fn lemma_unpack_pack(&self, rhs: &i8) {
        lemma_half_bounds();
        lemma_zigzag_range(*rhs as int, 0x80);
        lemma_zigzag_range(*self as int, 0x80000000);
        lemma_split_packed(zigzag(*rhs as int), zigzag(*self as int), 0x100);
        lemma_small_mod(zigzag(*self as int), 0x100000000);
        lemma_unzigzag_zigzag(*self as int);
        lemma_unzigzag_zigzag(*rhs as int);
    }

    fn pack(&self, rhs: &i8) -> (r: u64) {
        pack_i32_i8(*self, *rhs)
    }

    fn unpack(packed: u64) -> (r: (i32, i8)) {
        unpack_i32_i8(packed)
    }
}

impl Packable<i32, u64> for u8 {
    open spec fn spec_pack(&self, rhs: &i32) -> u64 {
        packed(*self as nat, zigzag(*rhs as int), 8) as u64
    }

    open spec fn spec_unpack(packed: u64) -> (u8, i32) {
        ((packed as nat % 0x100) as u8, unzigzag((packed as nat / 0x100) % 0x100000000) as i32)
    }

    proof fn lemma_unpack_pack(&self, rhs: &i32) {
        lemma_half_bounds();
        lemma_zigzag_range(*rhs as int, 0x80000000);
        lemma_split_packed(*self as nat, zigzag(*rhs as int), 0x100);
        lemma_small_mod(zigzag(*rhs as int), 0x100000000);
        lemma_unzigzag_zigzag(*rhs as int);
    }

    fn pack(&self, rhs: &i32) -> (r: u64) {
        pack_u8_i32(*self, *rhs)
    }

    fn unpack(packed: u64) -> (r: (u8, i32)) {
        unpack_u8_i32(packed)
    }
}

impl Packable<u8, u64> for i32 {
    open spec fn spec_pack(&self, rhs: &u8) -> u64 {
        packed(*rhs as nat, zigzag(*self as int), 8) as u64
    }

    open spec fn spec_unpack(packed: u64) -> (i32, u8) {
        (unzigzag((packed as nat / 0x100) % 0x100000000) as i32, (packed as nat % 0x100) as u8)
    }

    proof fn lemma_unpack_pack(&self, rhs: &u8) {
        lemma_half_bounds();
        lemma_zigzag_range(*self as int, 0x80000000);
        lemma_split_packed(*rhs as nat, zigzag(*self as int), 0x100);
        lemma_small_mod(zigzag(*self as int), 0x100000000);
        lemma_unzigzag_zigzag(*self as int);
    }

    fn pack(&self, rhs: &u8) -> (r: u64) {
        pack_i32_u8(*self, *rhs)
    }

    fn unpack(packed: u64) -> (r: (i32, u8)) {
        unpack_i32_u8(packed)
    }
}

impl Packable<u32, u64> for i8 {
    open spec fn spec_pack(&self, rhs: &u32) -> u64 {
        packed(zigzag(*self as int), *rhs as nat, 8) as u64
    }

    open spec fn spec_unpack(packed: u64) -> (i8, u32) {
        (unzigzag(packed as nat % 0x100) as i8, ((packed as nat / 0x100) % 0x100000000) as u32)
    }

    proof fn lemma_unpack_pack(&self, rhs: &u32) {
        lemma_half_bounds();
        lemma_zigzag_range(*self as int, 0x80);
        lemma_split_packed(zigzag(*self as int), *rhs as nat, 0x100);
        lemma_small_mod(*rhs as nat, 0x100000000);
        lemma_unzigzag_zigzag(*self as int);
    }

    fn pack(&self, rhs: &u32) -> (r: u64) {
        pack_i8_u32(*self, *rhs)
    }

    fn unpack(packed: u64) -> (r: (i8, u32)) {
        unpack_i8_u32(packed)
    }
}

impl Packable<i8, u64> for u32 {
    open spec fn spec_pack(&self, rhs: &i8) -> u64 {
        packed(zigzag(*rhs as int), *self as nat, 8) as u64
    }

    open spec fn spec_unpack(packed: u64) -> (u32, i8) {
        (((packed as nat / 0x100) % 0x100000000) as u32, unzigzag(packed as nat % 0x100) as i8)
    }

    proof fn lemma_unpack_pack(&self, rhs: &i8) {
        lemma_half_bounds();
        lemma_zigzag_range(*rhs as int, 0x80);
        lemma_split_packed(zigzag(*rhs as int), *self as nat, 0x100);
        lemma_small_mod(*self as nat, 0x100000000);
        lemma_unzigzag_zigzag(*rhs as int);
    }

    fn pack(&self, rhs: &i8) -> (r: u64) {
        pack_u32_i8(*self, *rhs)
    }

    fn unpack(packed: u64) -> (r: (u32, i8)) {
        unpack_u32_i8(packed)
    }
}

/// Packs `u8` and `u64` into a single `u128`: the narrower `a` in the low 8 bits, `b` above.
pub fn pack_u8_u64(a: u8, b: u64) -> (r: u128)
    ensures
        r as nat == packed(a as nat, b as nat, 8),
{
    proof {
        lemma_half_bounds();
    }
    a as u128 + (b as u128) * 0x100
}

/// Packs `u64` and `u8` into a single `u128`: the narrower `b` in the low 8 bits, `a` above.
pub fn pack_u64_u8(a: u64, b: u8) -> (r: u128)
    ensures
        r as nat == packed(b as nat, a as nat, 8),
{
    pack_u8_u64(b, a)
}

/// Unpacks a `u128` into `u8` and `u64` values: the low 8 bits, and the 64 bits above them.
pub fn unpack_u8_u64(packed: u128) -> (r: (u8, u64))
    ensures
        r.0 as nat == packed as nat % 0x100,
        r.1 as nat == (packed as nat / 0x100) % 0x10000000000000000,
{
    proof {
        lemma_half_bounds();
    }
    ((packed % 0x100) as u8, ((packed / 0x100) % 0x10000000000000000) as u64)
}

/// Unpacks a `u128` into `u64` and `u8` values: the 64 bits above the low 8, and the low 8.
pub fn unpack_u64_u8(packed: u128) -> (r: (u64, u8))
    ensures
        r.0 as nat == (packed as nat / 0x100) % 0x10000000000000000,
        r.1 as nat == packed as nat % 0x100,
{
    let (a, b) = unpack_u8_u64(packed);
    (b, a)
}

/// Packs `i8` and `i64` into a single `u128`, zigzag encoding each first; `a` goes low.
pub fn pack_i8_i64(a: i8, b: i64) -> (r: u128)
    ensures
        r as nat == packed(zigzag(a as int), zigzag(b as int), 8),
{
    pack_u8_u64(zigzag_encode_i8(a), zigzag_encode_i64(b))
}

/// Packs `i64` and `i8` into a single `u128`, zigzag encoding each first; `b` goes low.
pub fn pack_i64_i8(a: i64, b: i8) -> (r: u128)
    ensures
        r as nat == packed(zigzag(b as int), zigzag(a as int), 8),
{
    pack_i8_i64(b, a)
}

/// Unpacks a `u128` into `i8` and `i64` values, zigzag decoding each part.
pub fn unpack_i8_i64(packed: u128) -> (r: (i8, i64))
    ensures
        r.0 as int == unzigzag(packed as nat % 0x100),
        r.1 as int == unzigzag((packed as nat / 0x100) % 0x10000000000000000),
{
    let (a, b) = unpack_u8_u64(packed);
    (zigzag_decode_i8(a), zigzag_decode_i64(b))
}

/// Unpacks a `u128` into `i64` and `i8` values, zigzag decoding each part.
pub fn unpack_i64_i8(packed: u128) -> (r: (i64, i8))
    ensures
        r.0 as int == unzigzag((packed as nat / 0x100) % 0x10000000000000000),
        r.1 as int == unzigzag(packed as nat % 0x100),
{
    let (a, b) = unpack_i8_i64(packed);
    (b, a)
}

/// Packs `u8` and `i64` into a single `u128`: `a` low, the zigzag encoded `b` above.
pub fn pack_u8_i64(a: u8, b: i64) -> (r: u128)
    ensures
        r as nat == packed(a as nat, zigzag(b as int), 8),
{
    pack_u8_u64(a, zigzag_encode_i64(b))
}

/// Packs `i64` and `u8` into a single `u128`: `b` low, the zigzag encoded `a` above.
pub fn pack_i64_u8(a: i64, b: u8) -> (r: u128)
    ensures
        r as nat == packed(b as nat, zigzag(a as int), 8),
{
    pack_u8_i64(b, a)
}

/// Unpacks a `u128` into `u8` and `i64` values.
pub fn unpack_u8_i64(packed: u128) -> (r: (u8, i64))
    ensures
        r.0 as nat == packed as nat % 0x100,
        r.1 as int == unzigzag((packed as nat / 0x100) % 0x10000000000000000),
{
    let (a, b) = unpack_u8_u64(packed);
    (a, zigzag_decode_i64(b))
}

/// Unpacks a `u128` into `i64` and `u8` values.
pub fn unpack_i64_u8(packed: u128) -> (r: (i64, u8))
    ensures
        r.0 as int == unzigzag((packed as nat / 0x100) % 0x10000000000000000),
        r.1 as nat == packed as nat % 0x100,
{
    let (a, b) = unpack_u8_i64(packed);
    (b, a)
}

/// Packs `i8` and `u64` into a single `u128`: the zigzag encoded `a` low, `b` above.
pub fn pack_i8_u64(a: i8, b: u64) -> (r: u128)
    ensures
        r as nat == packed(zigzag(a as int), b as nat, 8),
{
    pack_u8_u64(zigzag_encode_i8(a), b)
}

/// Packs `u64` and `i8` into a single `u128`: the zigzag encoded `b` low, `a` above.
pub fn pack_u64_i8(a: u64, b: i8) -> (r: u128)
    ensures
        r as nat == packed(zigzag(b as int), a as nat, 8),
{
    pack_i8_u64(b, a)
}

/// Unpacks a `u128` into `i8` and `u64` values.
pub fn unpack_i8_u64(packed: u128) -> (r: (i8, u64))
    ensures
        r.0 as int == unzigzag(packed as nat % 0x100),
        r.1 as nat == (packed as nat / 0x100) % 0x10000000000000000,
{
    let (a, b) = unpack_u8_u64(packed);
    (zigzag_decode_i8(a), b)
}

/// Unpacks a `u128` into `u64` and `i8` values.
pub fn unpack_u64_i8(packed: u128) -> (r: (u64, i8))
    ensures
        r.0 as nat == (packed as nat / 0x100) % 0x10000000000000000,
        r.1 as int == unzigzag(packed as nat % 0x100),
{
    let (a, b) = unpack_i8_u64(packed);
    (b, a)
}

impl Packable<u64, u128> for u8 {
    open spec fn spec_pack(&self, rhs: &u64) -> u128 {
        packed(*self as nat, *rhs as nat, 8) as u128
    }

    open spec fn spec_unpack(packed: u128) -> (u8, u64) {
        ((packed as nat % 0x100) as u8, ((packed as nat / 0x100) % 0x10000000000000000) as u64)
    }

    proof fn lemma_unpack_pack(&self, rhs: &u64) {
        lemma_half_bounds();
        lemma_split_packed(*self as nat, *rhs as nat, 0x100);
        lemma_small_mod(*rhs as nat, 0x10000000000000000);
    }

    fn pack(&self, rhs: &u64) -> (r: u128) {
        pack_u8_u64(*self, *rhs)
    }

    fn unpack(packed: u128) -> (r: (u8, u64)) {
        unpack_u8_u64(packed)
    }
}

impl Packable<u8, u128> for u64 {
    open spec fn spec_pack(&self, rhs: &u8) -> u128 {
        packed(*rhs as nat, *self as nat, 8) as u128
    }

    open spec fn spec_unpack(packed: u128) -> (u64, u8) {
        (((packed as nat / 0x100) % 0x10000000000000000) as u64, (packed as nat % 0x100) as u8)
    }

    proof fn lemma_unpack_pack(&self, rhs: &u8) {
        lemma_half_bounds();
        lemma_split_packed(*rhs as nat, *self as nat, 0x100);
        lemma_small_mod(*self as nat, 0x10000000000000000);
    }

    fn pack(&self, rhs: &u8) -> (r: u128) {
        pack_u64_u8(*self, *rhs)
    }

    fn unpack(packed: u128) -> (r: (u64, u8)) {
        unpack_u64_u8(packed)
    }
}

impl Packable<i64, u128> for i8 {
    open spec fn spec_pack(&self, rhs: &i64) -> u128 {
        packed(zigzag(*self as int), zigzag(*rhs as int), 8) as u128
    }

    open spec fn spec_unpack(packed: u128) -> (i8, i64) {
        (unzigzag(packed as nat % 0x100) as i8, unzigzag((packed as nat / 0x100) % 0x10000000000000000) as i64)
    }

    proof fn lemma_unpack_pack(&self, rhs: &i64) {
        lemma_half_bounds();
        lemma_zigzag_range(*self as int, 0x80);
        lemma_zigzag_range(*rhs as int, 0x8000000000000000);
        lemma_split_packed(zigzag(*self as int), zigzag(*rhs as int), 0x100);
        lemma_small_mod(zigzag(*rhs as int), 0x10000000000000000);
        lemma_unzigzag_zigzag(*self as int);
        lemma_unzigzag_zigzag(*rhs as int);
    }

    fn pack(&self, rhs: &i64) -> (r: u128) {
        pack_i8_i64(*self, *rhs)
    }

    fn unpack(packed: u128) -> (r: (i8, i64)) {
        unpack_i8_i64(packed)
    }
}

impl Packable<i8, u128> for i64 {
    open spec fn spec_pack(&self, rhs: &i8) -> u128 {
        packed(zigzag(*rhs as int), zigzag(*self as int), 8) as u128
    }

    open spec fn spec_unpack(packed: u128) -> (i64, i8) {
        (unzigzag((packed as nat / 0x100) % 0x10000000000000000) as i64, unzigzag(packed as nat % 0x100) as i8)
    }

    proof fn lemma_unpack_pack(&self, rhs: &i8) {
        lemma_half_bounds();
        lemma_zigzag_range(*rhs as int, 0x80);
        lemma_zigzag_range(*self as int, 0x8000000000000000);
        lemma_split_packed(zigzag(*rhs as int), zigzag(*self as int), 0x100);
        lemma_small_mod(zigzag(*self as int), 0x10000000000000000);
        lemma_unzigzag_zigzag(*self as int);
        lemma_unzigzag_zigzag(*rhs as int);
    }

    fn pack(&self, rhs: &i8) -> (r: u128) {
        pack_i64_i8(*self, *rhs)
    }

    fn unpack(packed: u128) -> (r: (i64, i8)) {
        unpack_i64_i8(packed)
    }
}

impl Packable<i64, u128> for u8 {
    open spec fn spec_pack(&self, rhs: &i64) -> u128 {
        packed(*self as nat, zigzag(*rhs as int), 8) as u128
    }

    open spec fn spec_unpack(packed: u128) -> (u8, i64) {
        ((packed as nat % 0x100) as u8, unzigzag((packed as nat / 0x100) % 0x10000000000000000) as i64)
    }

    proof fn lemma_unpack_pack(&self, rhs: &i64) {
        lemma_half_bounds();
        lemma_zigzag_range(*rhs as int, 0x8000000000000000);
        lemma_split_packed(*self as nat, zigzag(*rhs as int), 0x100);
        lemma_small_mod(zigzag(*rhs as int), 0x10000000000000000);
        lemma_unzigzag_zigzag(*rhs as int);
    }

    fn pack(&self, rhs: &i64) -> (r: u128) {
        pack_u8_i64(*self, *rhs)
    }

    fn unpack(packed: u128) -> (r: (u8, i64)) {
        unpack_u8_i64(packed)
    }
}

impl Packable<u8, u128> for i64 {
    open spec fn spec_pack(&self, rhs: &u8) -> u128 {
        packed(*rhs as nat, zigzag(*self as int), 8) as u128
    }

    open spec fn spec_unpack(packed: u128) -> (i64, u8) {
        (unzigzag((packed as nat / 0x100) % 0x10000000000000000) as i64, (packed as nat % 0x100) as u8)
    }

    proof fn lemma_unpack_pack(&self, rhs: &u8) {
        lemma_half_bounds();
        lemma_zigzag_range(*self as int, 0x8000000000000000);
        lemma_split_packed(*rhs as nat, zigzag(*self as int), 0x100);
        lemma_small_mod(zigzag(*self as int), 0x10000000000000000);
        lemma_unzigzag_zigzag(*self as int);
    }

    fn pack(&self, rhs: &u8) -> (r: u128) {
        pack_i64_u8(*self, *rhs)
    }

    fn unpack(packed: u128) -> (r: (i64, u8)) {
        unpack_i64_u8(packed)
    }
}

impl Packable<u64, u128> for i8 {
    open spec fn spec_pack(&self, rhs: &u64) -> u128 {
        packed(zigzag(*self as int), *rhs as nat, 8) as u128
    }

    open spec fn spec_unpack(packed: u128) -> (i8, u64) {
        (unzigzag(packed as nat % 0x100) as i8, ((packed as nat / 0x100) % 0x10000000000000000) as u64)
    }

    proof fn lemma_unpack_pack(&self, rhs: &u64) {
        lemma_half_bounds();
        lemma_zigzag_range(*self as int, 0x80);
        lemma_split_packed(zigzag(*self as int), *rhs as nat, 0x100);
        lemma_small_mod(*rhs as nat, 0x10000000000000000);
        lemma_unzigzag_zigzag(*self as int);
    }

    fn pack(&self, rhs: &u64) -> (r: u128) {
        pack_i8_u64(*self, *rhs)
    }

    fn unpack(packed: u128) -> (r: (i8, u64)) {
        unpack_i8_u64(packed)
    }
}

impl Packable<i8, u128> for u64 {
    open spec fn spec_pack(&self, rhs: &i8) -> u128 {
        packed(zigzag(*rhs as int), *self as nat, 8) as u128
    }

    open spec fn spec_unpack(packed: u128) -> (u64, i8) {
        (((packed as nat / 0x100) % 0x10000000000000000) as u64, unzigzag(packed as nat % 0x100) as i8)
    }

    proof fn lemma_unpack_pack(&self, rhs: &i8) {
        lemma_half_bounds();
        lemma_zigzag_range(*rhs as int, 0x80);
        lemma_split_packed(zigzag(*rhs as int), *self as nat, 0x100);
        lemma_small_mod(*self as nat, 0x10000000000000000);
        lemma_unzigzag_zigzag(*rhs as int);
    }

    fn pack(&self, rhs: &i8) -> (r: u128) {
        pack_u64_i8(*self, *rhs)
    }

    fn unpack(packed: u128) -> (r: (u64, i8)) {
        unpack_u64_i8(packed)
    }
}

/// Packs `u16` and `u32` into a single `u64`: the narrower `a` in the low 16 bits, `b` above.
pub fn pack_u16_u32(a: u16, b: u32) -> (r: u64)
    ensures
        r as nat == packed(a as nat, b as nat, 16),
{
    proof {
        lemma_half_bounds();
    }
    a as u64 + (b as u64) * 0x10000
}

/// Packs `u32` and `u16` into a single `u64`: the narrower `b` in the low 16 bits, `a` above.
pub fn pack_u32_u16(a: u32, b: u16) -> (r: u64)
    ensures
        r as nat == packed(b as nat, a as nat, 16),
{
    pack_u16_u32(b, a)
}

/// Unpacks a `u64` into `u16` and `u32` values: the low 16 bits, and the 32 bits above them.
pub fn unpack_u16_u32(packed: u64) -> (r: (u16, u32))
    ensures
        r.0 as nat == packed as nat % 0x10000,
        r.1 as nat == (packed as nat / 0x10000) % 0x100000000,
{
    proof {
        lemma_half_bounds();
    }
    ((packed % 0x10000) as u16, ((packed / 0x10000) % 0x100000000) as u32)
}

/// Unpacks a `u64` into `u32` and `u16` values: the 32 bits above the low 16, and the low 16.
pub fn unpack_u32_u16(packed: u64) -> (r: (u32, u16))
    ensures
        r.0 as nat == (packed as nat / 0x10000) % 0x100000000,
        r.1 as nat == packed as nat % 0x10000,
{
    let (a, b) = unpack_u16_u32(packed);
    (b, a)
}

/// Packs `i16` and `i32` into a single `u64`, zigzag encoding each first; `a` goes low.
pub fn pack_i16_i32(a: i16, b: i32) -> (r: u64)
    ensures
        r as nat == packed(zigzag(a as int), zigzag(b as int), 16),
{
    pack_u16_u32(zigzag_encode_i16(a), zigzag_encode_i32(b))
}

/// Packs `i32` and `i16` into a single `u64`, zigzag encoding each first; `b` goes low.
pub fn pack_i32_i16(a: i32, b: i16) -> (r: u64)
    ensures
        r as nat == packed(zigzag(b as int), zigzag(a as int), 16),
{
    pack_i16_i32(b, a)
}

/// Unpacks a `u64` into `i16` and `i32` values, zigzag decoding each part.
pub fn unpack_i16_i32(packed: u64) -> (r: (i16, i32))
    ensures
        r.0 as int == unzigzag(packed as nat % 0x10000),
        r.1 as int == unzigzag((packed as nat / 0x10000) % 0x100000000),
{
    let (a, b) = unpack_u16_u32(packed);
    (zigzag_decode_i16(a), zigzag_decode_i32(b))
}

/// Unpacks a `u64` into `i32` and `i16` values, zigzag decoding each part.
pub fn unpack_i32_i16(packed: u64) -> (r: (i32, i16))
    ensures
        r.0 as int == unzigzag((packed as nat / 0x10000) % 0x100000000),
        r.1 as int == unzigzag(packed as nat % 0x10000),
{
    let (a, b) = unpack_i16_i32(packed);
    (b, a)
}

/// Packs `u16` and `i32` into a single `u64`: `a` low, the zigzag encoded `b` above.
pub fn pack_u16_i32(a: u16, b: i32) -> (r: u64)
    ensures
        r as nat == packed(a as nat, zigzag(b as int), 16),
{
    pack_u16_u32(a, zigzag_encode_i32(b))
}

/// Packs `i32` and `u16` into a single `u64`: `b` low, the zigzag encoded `a` above.
pub fn pack_i32_u16(a: i32, b: u16) -> (r: u64)
    ensures
        r as nat == packed(b as nat, zigzag(a as int), 16),
{
    pack_u16_i32(b, a)
}

/// Unpacks a `u64` into `u16` and `i32` values.
pub fn unpack_u16_i32(packed: u64) -> (r: (u16, i32))
    ensures
        r.0 as nat == packed as nat % 0x10000,
        r.1 as int == unzigzag((packed as nat / 0x10000) % 0x100000000),
{
    let (a, b) = unpack_u16_u32(packed);
    (a, zigzag_decode_i32(b))
}

/// Unpacks a `u64` into `i32` and `u16` values.
pub fn unpack_i32_u16(packed: u64) -> (r: (i32, u16))
    ensures
        r.0 as int == unzigzag((packed as nat / 0x10000) % 0x100000000),
        r.1 as nat == packed as nat % 0x10000,
{
    let (a, b) = unpack_u16_i32(packed);
    (b, a)
}

/// Packs `i16` and `u32` into a single `u64`: the zigzag encoded `a` low, `b` above.
pub fn pack_i16_u32(a: i16, b: u32) -> (r: u64)
    ensures
        r as nat == packed(zigzag(a as int), b as nat, 16),
{
    pack_u16_u32(zigzag_encode_i16(a), b)
}

/// Packs `u32` and `i16` into a single `u64`: the zigzag encoded `b` low, `a` above.
pub fn pack_u32_i16(a: u32, b: i16) -> (r: u64)
    ensures
        r as nat == packed(zigzag(b as int), a as nat, 16),
{
    pack_i16_u32(b, a)
}

/// Unpacks a `u64` into `i16` and `u32` values.
pub fn unpack_i16_u32(packed: u64) -> (r: (i16, u32))
    ensures
        r.0 as int == unzigzag(packed as nat % 0x10000),
        r.1 as nat == (packed as nat / 0x10000) % 0x100000000,
{
    let (a, b) = unpack_u16_u32(packed);
    (zigzag_decode_i16(a), b)
}

/// Unpacks a `u64` into `u32` and `i16` values.
pub fn unpack_u32_i16(packed: u64) -> (r: (u32, i16))
    ensures
        r.0 as nat == (packed as nat / 0x10000) % 0x100000000,
        r.1 as int == unzigzag(packed as nat % 0x10000),
{
    let (a, b) = unpack_i16_u32(packed);
    (b, a)
}

impl Packable<u32, u64> for u16 {
    open spec fn spec_pack(&self, rhs: &u32) -> u64 {
        packed(*self as nat, *rhs as nat, 16) as u64
    }

    open spec fn spec_unpack(packed: u64) -> (u16, u32) {
        ((packed as nat % 0x10000) as u16, ((packed as nat / 0x10000) % 0x100000000) as u32)
    }

    proof fn lemma_unpack_pack(&self, rhs: &u32) {
        lemma_half_bounds();
        lemma_split_packed(*self as nat, *rhs as nat, 0x10000);
        lemma_small_mod(*rhs as nat, 0x100000000);
    }

    fn pack(&self, rhs: &u32) -> (r: u64) {
        pack_u16_u32(*self, *rhs)
    }

    fn unpack(packed: u64) -> (r: (u16, u32)) {
        unpack_u16_u32(packed)
    }
}

impl Packable<u16, u64> for u32 {
    open spec fn spec_pack(&self, rhs: &u16) -> u64 {
        packed(*rhs as nat, *self as nat, 16) as u64
    }

    open spec fn spec_unpack(packed: u64) -> (u32, u16) {
        (((packed as nat / 0x10000) % 0x100000000) as u32, (packed as nat % 0x10000) as u16)
    }

    proof fn lemma_unpack_pack(&self, rhs: &u16) {
        lemma_half_bounds();
        lemma_split_packed(*rhs as nat, *self as nat, 0x10000);
        lemma_small_mod(*self as nat, 0x100000000);
    }

    fn pack(&self, rhs: &u16) -> (r: u64) {
        pack_u32_u16(*self, *rhs)
    }

    fn unpack(packed: u64) -> (r: (u32, u16)) {
        unpack_u32_u16(packed)
    }
}

impl Packable<i32, u64> for i16 {
    open spec fn spec_pack(&self, rhs: &i32) -> u64 {
        packed(zigzag(*self as int), zigzag(*rhs as int), 16) as u64
    }

    open spec fn spec_unpack(packed: u64) -> (i16, i32) {
        (unzigzag(packed as nat % 0x10000) as i16, unzigzag((packed as nat / 0x10000) % 0x100000000) as i32)
    }

    proof fn lemma_unpack_pack(&self, rhs: &i32) {
        lemma_half_bounds();
        lemma_zigzag_range(*self as int, 0x8000);
        lemma_zigzag_range(*rhs as int, 0x80000000);
        lemma_split_packed(zigzag(*self as int), zigzag(*rhs as int), 0x10000);
        lemma_small_mod(zigzag(*rhs as int), 0x100000000);
        lemma_unzigzag_zigzag(*self as int);
        lemma_unzigzag_zigzag(*rhs as int);
    }

    fn pack(&self, rhs: &i32) -> (r: u64) {
        pack_i16_i32(*self, *rhs)
    }

    fn unpack(packed: u64) -> (r: (i16, i32)) {
        unpack_i16_i32(packed)
    }
}

impl Packable<i16, u64> for i32 {
    open spec fn spec_pack(&self, rhs: &i16) -> u64 {
        packed(zigzag(*rhs as int), zigzag(*self as int), 16) as u64
    }

    open spec fn spec_unpack(packed: u64) -> (i32, i16) {
        (unzigzag((packed as nat / 0x10000) % 0x100000000) as i32, unzigzag(packed as nat % 0x10000) as i16)
    }

    proof fn lemma_unpack_pack(&self, rhs: &i16) {
        lemma_half_bounds();
        lemma_zigzag_range(*rhs as int, 0x8000);
        lemma_zigzag_range(*self as int, 0x80000000);
        lemma_split_packed(zigzag(*rhs as int), zigzag(*self as int), 0x10000);
        lemma_small_mod(zigzag(*self as int), 0x100000000);
        lemma_unzigzag_zigzag(*self as int);
        lemma_unzigzag_zigzag(*rhs as int);
    }

    fn pack(&self, rhs: &i16) -> (r: u64) {
        pack_i32_i16(*self, *rhs)
    }

    fn unpack(packed: u64) -> (r: (i32, i16)) {
        unpack_i32_i16(packed)
    }
}

impl Packable<i32, u64> for u16 {
    open spec fn spec_pack(&self, rhs: &i32) -> u64 {
        packed(*self as nat, zigzag(*rhs as int), 16) as u64
    }

    open spec fn spec_unpack(packed: u64) -> (u16, i32) {
        ((packed as nat % 0x10000) as u16, unzigzag((packed as nat / 0x10000) % 0x100000000) as i32)
    }

    proof fn lemma_unpack_pack(&self, rhs: &i32) {
        lemma_half_bounds();
        lemma_zigzag_range(*rhs as int, 0x80000000);
        lemma_split_packed(*self as nat, zigzag(*rhs as int), 0x10000);
        lemma_small_mod(zigzag(*rhs as int), 0x100000000);
        lemma_unzigzag_zigzag(*rhs as int);
    }

    fn pack(&self, rhs: &i32) -> (r: u64) {
        pack_u16_i32(*self, *rhs)
    }

    fn unpack(packed: u64) -> (r: (u16, i32)) {
        unpack_u16_i32(packed)
    }
}

impl Packable<u16, u64> for i32 {
    open spec fn spec_pack(&self, rhs: &u16) -> u64 {
        packed(*rhs as nat, zigzag(*self as int), 16) as u64
    }

    open spec fn spec_unpack(packed: u64) -> (i32, u16) {
        (unzigzag((packed as nat / 0x10000) % 0x100000000) as i32, (packed as nat % 0x10000) as u16)
    }

    proof fn lemma_unpack_pack(&self, rhs: &u16) {
        lemma_half_bounds();
        lemma_zigzag_range(*self as int, 0x80000000);
        lemma_split_packed(*rhs as nat, zigzag(*self as int), 0x10000);
        lemma_small_mod(zigzag(*self as int), 0x100000000);
        lemma_unzigzag_zigzag(*self as int);
    }

    fn pack(&self, rhs: &u16) -> (r: u64) {
        pack_i32_u16(*self, *rhs)
    }

    fn unpack(packed: u64) -> (r: (i32, u16)) {
        unpack_i32_u16(packed)
    }
}

impl Packable<u32, u64> for i16 {
    open spec fn spec_pack(&self, rhs: &u32) -> u64 {
        packed(zigzag(*self as int), *rhs as nat, 16) as u64
    }

    open spec fn spec_unpack(packed: u64) -> (i16, u32) {
        (unzigzag(packed as nat % 0x10000) as i16, ((packed as nat / 0x10000) % 0x100000000) as u32)
    }

    proof fn lemma_unpack_pack(&self, rhs: &u32) {
        lemma_half_bounds();
        lemma_zigzag_range(*self as int, 0x8000);
        lemma_split_packed(zigzag(*self as int), *rhs as nat, 0x10000);
        lemma_small_mod(*rhs as nat, 0x100000000);
        lemma_unzigzag_zigzag(*self as int);
    }

    fn pack(&self, rhs: &u32) -> (r: u64) {
        pack_i16_u32(*self, *rhs)
    }

    fn unpack(packed: u64) -> (r: (i16, u32)) {
        unpack_i16_u32(packed)
    }
}

impl Packable<i16, u64> for u32 {
    open spec fn spec_pack(&self, rhs: &i16) -> u64 {
        packed(zigzag(*rhs as int), *self as nat, 16) as u64
    }

    open spec fn spec_unpack(packed: u64) -> (u32, i16) {
        (((packed as nat / 0x10000) % 0x100000000) as u32, unzigzag(packed as nat % 0x10000) as i16)
    }

    proof fn lemma_unpack_pack(&self, rhs: &i16) {
        lemma_half_bounds();
        lemma_zigzag_range(*rhs as int, 0x8000);
        lemma_split_packed(zigzag(*rhs as int), *self as nat, 0x10000);
        lemma_small_mod(*self as nat, 0x100000000);
        lemma_unzigzag_zigzag(*rhs as int);
    }

    fn pack(&self, rhs: &i16) -> (r: u64) {
        pack_u32_i16(*self, *rhs)
    }

    fn unpack(packed: u64) -> (r: (u32, i16)) {
        unpack_u32_i16(packed)
    }
}

/// Packs `u16` and `u64` into a single `u128`: the narrower `a` in the low 16 bits, `b` above.
pub fn pack_u16_u64(a: u16, b: u64) -> (r: u128)
    ensures
        r as nat == packed(a as nat, b as nat, 16),
{
    proof {
        lemma_half_bounds();
    }
    a as u128 + (b as u128) * 0x10000
}

/// Packs `u64` and `u16` into a single `u128`: the narrower `b` in the low 16 bits, `a` above.
pub fn pack_u64_u16(a: u64, b: u16) -> (r: u128)
    ensures
        r as nat == packed(b as nat, a as nat, 16),
{
    pack_u16_u64(b, a)
}

/// Unpacks a `u128` into `u16` and `u64` values: the low 16 bits, and the 64 bits above them.
pub fn unpack_u16_u64(packed: u128) -> (r: (u16, u64))
    ensures
        r.0 as nat == packed as nat % 0x10000,
        r.1 as nat == (packed as nat / 0x10000) % 0x10000000000000000,
{
    proof {
        lemma_half_bounds();
    }
    ((packed % 0x10000) as u16, ((packed / 0x10000) % 0x10000000000000000) as u64)
}

/// Unpacks a `u128` into `u64` and `u16` values: the 64 bits above the low 16, and the low 16.
pub fn unpack_u64_u16(packed: u128) -> (r: (u64, u16))
    ensures
        r.0 as nat == (packed as nat / 0x10000) % 0x10000000000000000,
        r.1 as nat == packed as nat % 0x10000,
{
    let (a, b) = unpack_u16_u64(packed);
    (b, a)
}

/// Packs `i16` and `i64` into a single `u128`, zigzag encoding each first; `a` goes low.
pub fn pack_i16_i64(a: i16, b: i64) -> (r: u128)
    ensures
        r as nat == packed(zigzag(a as int), zigzag(b as int), 16),
{
    pack_u16_u64(zigzag_encode_i16(a), zigzag_encode_i64(b))
}

/// Packs `i64` and `i16` into a single `u128`, zigzag encoding each first; `b` goes low.
pub fn pack_i64_i16(a: i64, b: i16) -> (r: u128)
    ensures
        r as nat == packed(zigzag(b as int), zigzag(a as int), 16),
{
    pack_i16_i64(b, a)
}

/// Unpacks a `u128` into `i16` and `i64` values, zigzag decoding each part.
pub fn unpack_i16_i64(packed: u128) -> (r: (i16, i64))
    ensures
        r.0 as int == unzigzag(packed as nat % 0x10000),
        r.1 as int == unzigzag((packed as nat / 0x10000) % 0x10000000000000000),
{
    let (a, b) = unpack_u16_u64(packed);
    (zigzag_decode_i16(a), zigzag_decode_i64(b))
}

/// Unpacks a `u128` into `i64` and `i16` values, zigzag decoding each part.
pub fn unpack_i64_i16(packed: u128) -> (r: (i64, i16))
    ensures
        r.0 as int == unzigzag((packed as nat / 0x10000) % 0x10000000000000000),
        r.1 as int == unzigzag(packed as nat % 0x10000),
{
    let (a, b) = unpack_i16_i64(packed);
    (b, a)
}

/// Packs `u16` and `i64` into a single `u128`: `a` low, the zigzag encoded `b` above.
pub fn pack_u16_i64(a: u16, b: i64) -> (r: u128)
    ensures
        r as nat == packed(a as nat, zigzag(b as int), 16),
{
    pack_u16_u64(a, zigzag_encode_i64(b))
}

/// Packs `i64` and `u16` into a single `u128`: `b` low, the zigzag encoded `a` above.
pub fn pack_i64_u16(a: i64, b: u16) -> (r: u128)
    ensures
        r as nat == packed(b as nat, zigzag(a as int), 16),
{
    pack_u16_i64(b, a)
}

/// Unpacks a `u128` into `u16` and `i64` values.
pub fn unpack_u16_i64(packed: u128) -> (r: (u16, i64))
    ensures
        r.0 as nat == packed as nat % 0x10000,
        r.1 as int == unzigzag((packed as nat / 0x10000) % 0x10000000000000000),
{
    let (a, b) = unpack_u16_u64(packed);
    (a, zigzag_decode_i64(b))
}

/// Unpacks a `u128` into `i64` and `u16` values.
pub fn unpack_i64_u16(packed: u128) -> (r: (i64, u16))
    ensures
        r.0 as int == unzigzag((packed as nat / 0x10000) % 0x10000000000000000),
        r.1 as nat == packed as nat % 0x10000,
{
    let (a, b) = unpack_u16_i64(packed);
    (b, a)
}

/// Packs `i16` and `u64` into a single `u128`: the zigzag encoded `a` low, `b` above.
pub fn pack_i16_u64(a: i16, b: u64) -> (r: u128)
    ensures
        r as nat == packed(zigzag(a as int), b as nat, 16),
{
    pack_u16_u64(zigzag_encode_i16(a), b)
}

/// Packs `u64` and `i16` into a single `u128`: the zigzag encoded `b` low, `a` above.
pub fn pack_u64_i16(a: u64, b: i16) -> (r: u128)
    ensures
        r as nat == packed(zigzag(b as int), a as nat, 16),
{
    pack_i16_u64(b, a)
}

/// Unpacks a `u128` into `i16` and `u64` values.
pub fn unpack_i16_u64(packed: u128) -> (r: (i16, u64))
    ensures
        r.0 as int == unzigzag(packed as nat % 0x10000),
        r.1 as nat == (packed as nat / 0x10000) % 0x10000000000000000,
{
    let (a, b) = unpack_u16_u64(packed);
    (zigzag_decode_i16(a), b)
}

/// Unpacks a `u128` into `u64` and `i16` values.
pub fn unpack_u64_i16(packed: u128) -> (r: (u64, i16))
    ensures
        r.0 as nat == (packed as nat / 0x10000) % 0x10000000000000000,
        r.1 as int == unzigzag(packed as nat % 0x10000),
{
    let (a, b) = unpack_i16_u64(packed);
    (b, a)
}

impl Packable<u64, u128> for u16 {
    open spec fn spec_pack(&self, rhs: &u64) -> u128 {
        packed(*self as nat, *rhs as nat, 16) as u128
    }

    open spec fn spec_unpack(packed: u128) -> (u16, u64) {
        ((packed as nat % 0x10000) as u16, ((packed as nat / 0x10000) % 0x10000000000000000) as u64)
    }

    proof fn lemma_unpack_pack(&self, rhs: &u64) {
        lemma_half_bounds();
        lemma_split_packed(*self as nat, *rhs as nat, 0x10000);
        lemma_small_mod(*rhs as nat, 0x10000000000000000);
    }

    fn pack(&self, rhs: &u64) -> (r: u128) {
        pack_u16_u64(*self, *rhs)
    }

    fn unpack(packed: u128) -> (r: (u16, u64)) {
        unpack_u16_u64(packed)
    }
}

impl Packable<u16, u128> for u64 {
    open spec fn spec_pack(&self, rhs: &u16) -> u128 {
        packed(*rhs as nat, *self as nat, 16) as u128
    }

    open spec fn spec_unpack(packed: u128) -> (u64, u16) {
        (((packed as nat / 0x10000) % 0x10000000000000000) as u64, (packed as nat % 0x10000) as u16)
    }

    proof fn lemma_unpack_pack(&self, rhs: &u16) {
        lemma_half_bounds();
        lemma_split_packed(*rhs as nat, *self as nat, 0x10000);
        lemma_small_mod(*self as nat, 0x10000000000000000);
    }

    fn pack(&self, rhs: &u16) -> (r: u128) {
        pack_u64_u16(*self, *rhs)
    }

    fn unpack(packed: u128) -> (r: (u64, u16)) {
        unpack_u64_u16(packed)
    }
}

impl Packable<i64, u128> for i16 {
    open spec fn spec_pack(&self, rhs: &i64) -> u128 {
        packed(zigzag(*self as int), zigzag(*rhs as int), 16) as u128
    }

    open spec fn spec_unpack(packed: u128) -> (i16, i64) {
        (unzigzag(packed as nat % 0x10000) as i16, unzigzag((packed as nat / 0x10000) % 0x10000000000000000) as i64)
    }

    proof fn lemma_unpack_pack(&self, rhs: &i64) {
        lemma_half_bounds();
        lemma_zigzag_range(*self as int, 0x8000);
        lemma_zigzag_range(*rhs as int, 0x8000000000000000);
        lemma_split_packed(zigzag(*self as int), zigzag(*rhs as int), 0x10000);
        lemma_small_mod(zigzag(*rhs as int), 0x10000000000000000);
        lemma_unzigzag_zigzag(*self as int);
        lemma_unzigzag_zigzag(*rhs as int);
    }

    fn pack(&self, rhs: &i64) -> (r: u128) {
        pack_i16_i64(*self, *rhs)
    }

    fn unpack(packed: u128) -> (r: (i16, i64)) {
        unpack_i16_i64(packed)
    }
}

impl Packable<i16, u128> for i64 {
    open spec fn spec_pack(&self, rhs: &i16) -> u128 {
        packed(zigzag(*rhs as int), zigzag(*self as int), 16) as u128
    }

    open spec fn spec_unpack(packed: u128) -> (i64, i16) {
        (unzigzag((packed as nat / 0x10000) % 0x10000000000000000) as i64, unzigzag(packed as nat % 0x10000) as i16)
    }

    proof fn lemma_unpack_pack(&self, rhs: &i16) {
        lemma_half_bounds();
        lemma_zigzag_range(*rhs as int, 0x8000);
        lemma_zigzag_range(*self as int, 0x8000000000000000);
        lemma_split_packed(zigzag(*rhs as int), zigzag(*self as int), 0x10000);
        lemma_small_mod(zigzag(*self as int), 0x10000000000000000);
        lemma_unzigzag_zigzag(*self as int);
        lemma_unzigzag_zigzag(*rhs as int);
    }

    fn pack(&self, rhs: &i16) -> (r: u128) {
        pack_i64_i16(*self, *rhs)
    }

    fn unpack(packed: u128) -> (r: (i64, i16)) {
        unpack_i64_i16(packed)
    }
}

impl Packable<i64, u128> for u16 {
    open spec fn spec_pack(&self, rhs: &i64) -> u128 {
        packed(*self as nat, zigzag(*rhs as int), 16) as u128
    }

    open spec fn spec_unpack(packed: u128) -> (u16, i64) {
        ((packed as nat % 0x10000) as u16, unzigzag((packed as nat / 0x10000) % 0x10000000000000000) as i64)
    }

    proof fn lemma_unpack_pack(&self, rhs: &i64) {
        lemma_half_bounds();
        lemma_zigzag_range(*rhs as int, 0x8000000000000000);
        lemma_split_packed(*self as nat, zigzag(*rhs as int), 0x10000);
        lemma_small_mod(zigzag(*rhs as int), 0x10000000000000000);
        lemma_unzigzag_zigzag(*rhs as int);
    }

    fn pack(&self, rhs: &i64) -> (r: u128) {
        pack_u16_i64(*self, *rhs)
    }

    fn unpack(packed: u128) -> (r: (u16, i64)) {
        unpack_u16_i64(packed)
    }
}

impl Packable<u16, u128> for i64 {
    open spec fn spec_pack(&self, rhs: &u16) -> u128 {
        packed(*rhs as nat, zigzag(*self as int), 16) as u128
    }

    open spec fn spec_unpack(packed: u128) -> (i64, u16) {
        (unzigzag((packed as nat / 0x10000) % 0x10000000000000000) as i64, (packed as nat % 0x10000) as u16)
    }

    proof fn lemma_unpack_pack(&self, rhs: &u16) {
        lemma_half_bounds();
        lemma_zigzag_range(*self as int, 0x8000000000000000);
        lemma_split_packed(*rhs as nat, zigzag(*self as int), 0x10000);
        lemma_small_mod(zigzag(*self as int), 0x10000000000000000);
        lemma_unzigzag_zigzag(*self as int);
    }

    fn pack(&self, rhs: &u16) -> (r: u128) {
        pack_i64_u16(*self, *rhs)
    }

    fn unpack(packed: u128) -> (r: (i64, u16)) {
        unpack_i64_u16(packed)
    }
}

impl Packable<u64, u128> for i16 {
    open spec fn spec_pack(&self, rhs: &u64) -> u128 {
        packed(zigzag(*self as int), *rhs as nat, 16) as u128
    }

    open spec fn spec_unpack(packed: u128) -> (i16, u64) {
        (unzigzag(packed as nat % 0x10000) as i16, ((packed as nat / 0x10000) % 0x10000000000000000) as u64)
    }

    proof fn lemma_unpack_pack(&self, rhs: &u64) {
        lemma_half_bounds();
        lemma_zigzag_range(*self as int, 0x8000);
        lemma_split_packed(zigzag(*self as int), *rhs as nat, 0x10000);
        lemma_small_mod(*rhs as nat, 0x10000000000000000);
        lemma_unzigzag_zigzag(*self as int);
    }

    fn pack(&self, rhs: &u64) -> (r: u128) {
        pack_i16_u64(*self, *rhs)
    }

    fn unpack(packed: u128) -> (r: (i16, u64)) {
        unpack_i16_u64(packed)
    }
}

impl Packable<i16, u128> for u64 {
    open spec fn spec_pack(&self, rhs: &i16) -> u128 {
        packed(zigzag(*rhs as int), *self as nat, 16) as u128
    }

    open spec fn spec_unpack(packed: u128) -> (u64, i16) {
        (((packed as nat / 0x10000) % 0x10000000000000000) as u64, unzigzag(packed as nat % 0x10000) as i16)
    }

    proof fn lemma_unpack_pack(&self, rhs: &i16) {
        lemma_half_bounds();
        lemma_zigzag_range(*rhs as int, 0x8000);
        lemma_split_packed(zigzag(*rhs as int), *self as nat, 0x10000);
        lemma_small_mod(*self as nat, 0x10000000000000000);
        lemma_unzigzag_zigzag(*rhs as int);
    }

    fn pack(&self, rhs: &i16) -> (r: u128) {
        pack_u64_i16(*self, *rhs)
    }

    fn unpack(packed: u128) -> (r: (u64, i16)) {
        unpack_u64_i16(packed)
    }
}

/// Packs `u32` and `u64` into a single `u128`: the narrower `a` in the low 32 bits, `b` above.
pub fn pack_u32_u64(a: u32, b: u64) -> (r: u128)
    ensures
        r as nat == packed(a as nat, b as nat, 32),
{
    proof {
        lemma_half_bounds();
    }
    a as u128 + (b as u128) * 0x100000000
}

/// Packs `u64` and `u32` into a single `u128`: the narrower `b` in the low 32 bits, `a` above.
pub fn pack_u64_u32(a: u64, b: u32) -> (r: u128)
    ensures
        r as nat == packed(b as nat, a as nat, 32),
{
    pack_u32_u64(b, a)
}

/// Unpacks a `u128` into `u32` and `u64` values: the low 32 bits, and the 64 bits above them.
pub fn unpack_u32_u64(packed: u128) -> (r: (u32, u64))
    ensures
        r.0 as nat == packed as nat % 0x100000000,
        r.1 as nat == (packed as nat / 0x100000000) % 0x10000000000000000,
{
    proof {
        lemma_half_bounds();
    }
    ((packed % 0x100000000) as u32, ((packed / 0x100000000) % 0x10000000000000000) as u64)
}

/// Unpacks a `u128` into `u64` and `u32` values: the 64 bits above the low 32, and the low 32.
pub fn unpack_u64_u32(packed: u128) -> (r: (u64, u32))
    ensures
        r.0 as nat == (packed as nat / 0x100000000) % 0x10000000000000000,
        r.1 as nat == packed as nat % 0x100000000,
{
    let (a, b) = unpack_u32_u64(packed);
    (b, a)
}

/// Packs `i32` and `i64` into a single `u128`, zigzag encoding each first; `a` goes low.
pub fn pack_i32_i64(a: i32, b: i64) -> (r: u128)
    ensures
        r as nat == packed(zigzag(a as int), zigzag(b as int), 32),
{
    pack_u32_u64(zigzag_encode_i32(a), zigzag_encode_i64(b))
}

/// Packs `i64` and `i32` into a single `u128`, zigzag encoding each first; `b` goes low.
pub fn pack_i64_i32(a: i64, b: i32) -> (r: u128)
    ensures
        r as nat == packed(zigzag(b as int), zigzag(a as int), 32),
{
    pack_i32_i64(b, a)
}

/// Unpacks a `u128` into `i32` and `i64` values, zigzag decoding each part.
pub fn unpack_i32_i64(packed: u128) -> (r: (i32, i64))
    ensures
        r.0 as int == unzigzag(packed as nat % 0x100000000),
        r.1 as int == unzigzag((packed as nat / 0x100000000) % 0x10000000000000000),
{
    let (a, b) = unpack_u32_u64(packed);
    (zigzag_decode_i32(a), zigzag_decode_i64(b))
}

/// Unpacks a `u128` into `i64` and `i32` values, zigzag decoding each part.
pub fn unpack_i64_i32(packed: u128) -> (r: (i64, i32))
    ensures
        r.0 as int == unzigzag((packed as nat / 0x100000000) % 0x10000000000000000),
        r.1 as int == unzigzag(packed as nat % 0x100000000),
{
    let (a, b) = unpack_i32_i64(packed);
    (b, a)
}

/// Packs `u32` and `i64` into a single `u128`: `a` low, the zigzag encoded `b` above.
pub fn pack_u32_i64(a: u32, b: i64) -> (r: u128)
    ensures
        r as nat == packed(a as nat, zigzag(b as int), 32),
{
    pack_u32_u64(a, zigzag_encode_i64(b))
}

/// Packs `i64` and `u32` into a single `u128`: `b` low, the zigzag encoded `a` above.
pub fn pack_i64_u32(a: i64, b: u32) -> (r: u128)
    ensures
        r as nat == packed(b as nat, zigzag(a as int), 32),
{
    pack_u32_i64(b, a)
}

/// Unpacks a `u128` into `u32` and `i64` values.
pub fn unpack_u32_i64(packed: u128) -> (r: (u32, i64))
    ensures
        r.0 as nat == packed as nat % 0x100000000,
        r.1 as int == unzigzag((packed as nat / 0x100000000) % 0x10000000000000000),
{
    let (a, b) = unpack_u32_u64(packed);
    (a, zigzag_decode_i64(b))
}

/// Unpacks a `u128` into `i64` and `u32` values.
pub fn unpack_i64_u32(packed: u128) -> (r: (i64, u32))
    ensures
        r.0 as int == unzigzag((packed as nat / 0x100000000) % 0x10000000000000000),
        r.1 as nat == packed as nat % 0x100000000,
{
    let (a, b) = unpack_u32_i64(packed);
    (b, a)
}

/// Packs `i32` and `u64` into a single `u128`: the zigzag encoded `a` low, `b` above.
pub fn pack_i32_u64(a: i32, b: u64) -> (r: u128)
    ensures
        r as nat == packed(zigzag(a as int), b as nat, 32),
{
    pack_u32_u64(zigzag_encode_i32(a), b)
}

/// Packs `u64` and `i32` into a single `u128`: the zigzag encoded `b` low, `a` above.
pub fn pack_u64_i32(a: u64, b: i32) -> (r: u128)
    ensures
        r as nat == packed(zigzag(b as int), a as nat, 32),
{
    pack_i32_u64(b, a)
}

/// Unpacks a `u128` into `i32` and `u64` values.
pub fn unpack_i32_u64(packed: u128) -> (r: (i32, u64))
    ensures
        r.0 as int == unzigzag(packed as nat % 0x100000000),
        r.1 as nat == (packed as nat / 0x100000000) % 0x10000000000000000,
{
    let (a, b) = unpack_u32_u64(packed);
    (zigzag_decode_i32(a), b)
}

/// Unpacks a `u128` into `u64` and `i32` values.
pub fn unpack_u64_i32(packed: u128) -> (r: (u64, i32))
    ensures
        r.0 as nat == (packed as nat / 0x100000000) % 0x10000000000000000,
        r.1 as int == unzigzag(packed as nat % 0x100000000),
{
    let (a, b) = unpack_i32_u64(packed);
    (b, a)
}

impl Packable<u64, u128> for u32 {
    open spec fn spec_pack(&self, rhs: &u64) -> u128 {
        packed(*self as nat, *rhs as nat, 32) as u128
    }

    open spec fn spec_unpack(packed: u128) -> (u32, u64) {
        ((packed as nat % 0x100000000) as u32, ((packed as nat / 0x100000000) % 0x10000000000000000) as u64)
    }

    proof fn lemma_unpack_pack(&self, rhs: &u64) {
        lemma_half_bounds();
        lemma_split_packed(*self as nat, *rhs as nat, 0x100000000);
        lemma_small_mod(*rhs as nat, 0x10000000000000000);
    }

    fn pack(&self, rhs: &u64) -> (r: u128) {
        pack_u32_u64(*self, *rhs)
    }

    fn unpack(packed: u128) -> (r: (u32, u64)) {
        unpack_u32_u64(packed)
    }
}

impl Packable<u32, u128> for u64 {
    open spec fn spec_pack(&self, rhs: &u32) -> u128 {
        packed(*rhs as nat, *self as nat, 32) as u128
    }

    open spec fn spec_unpack(packed: u128) -> (u64, u32) {
        (((packed as nat / 0x100000000) % 0x10000000000000000) as u64, (packed as nat % 0x100000000) as u32)
    }

    proof fn lemma_unpack_pack(&self, rhs: &u32) {
        lemma_half_bounds();
        lemma_split_packed(*rhs as nat, *self as nat, 0x100000000);
        lemma_small_mod(*self as nat, 0x10000000000000000);
    }

    fn pack(&self, rhs: &u32) -> (r: u128) {
        pack_u64_u32(*self, *rhs)
    }

    fn unpack(packed: u128) -> (r: (u64, u32)) {
        unpack_u64_u32(packed)
    }
}

impl Packable<i64, u128> for i32 {
    open spec fn spec_pack(&self, rhs: &i64) -> u128 {
        packed(zigzag(*self as int), zigzag(*rhs as int), 32) as u128
    }

    open spec fn spec_unpack(packed: u128) -> (i32, i64) {
        (unzigzag(packed as nat % 0x100000000) as i32, unzigzag((packed as nat / 0x100000000) % 0x10000000000000000) as i64)
    }

    proof fn lemma_unpack_pack(&self, rhs: &i64) {
        lemma_half_bounds();
        lemma_zigzag_range(*self as int, 0x80000000);
        lemma_zigzag_range(*rhs as int, 0x8000000000000000);
        lemma_split_packed(zigzag(*self as int), zigzag(*rhs as int), 0x100000000);
        lemma_small_mod(zigzag(*rhs as int), 0x10000000000000000);
        lemma_unzigzag_zigzag(*self as int);
        lemma_unzigzag_zigzag(*rhs as int);
    }

    fn pack(&self, rhs: &i64) -> (r: u128) {
        pack_i32_i64(*self, *rhs)
    }

    fn unpack(packed: u128) -> (r: (i32, i64)) {
        unpack_i32_i64(packed)
    }
}

impl Packable<i32, u128> for i64 {
    open spec fn spec_pack(&self, rhs: &i32) -> u128 {
        packed(zigzag(*rhs as int), zigzag(*self as int), 32) as u128
    }

    open spec fn spec_unpack(packed: u128) -> (i64, i32) {
        (unzigzag((packed as nat / 0x100000000) % 0x10000000000000000) as i64, unzigzag(packed as nat % 0x100000000) as i32)
    }

    proof fn lemma_unpack_pack(&self, rhs: &i32) {
        lemma_half_bounds();
        lemma_zigzag_range(*rhs as int, 0x80000000);
        lemma_zigzag_range(*self as int, 0x8000000000000000);
        lemma_split_packed(zigzag(*rhs as int), zigzag(*self as int), 0x100000000);
        lemma_small_mod(zigzag(*self as int), 0x10000000000000000);
        lemma_unzigzag_zigzag(*self as int);
        lemma_unzigzag_zigzag(*rhs as int);
    }

    fn pack(&self, rhs: &i32) -> (r: u128) {
        pack_i64_i32(*self, *rhs)
    }

    fn unpack(packed: u128) -> (r: (i64, i32)) {
        unpack_i64_i32(packed)
    }
}

impl Packable<i64, u128> for u32 {
    open spec fn spec_pack(&self, rhs: &i64) -> u128 {
        packed(*self as nat, zigzag(*rhs as int), 32) as u128
    }

    open spec fn spec_unpack(packed: u128) -> (u32, i64) {
        ((packed as nat % 0x100000000) as u32, unzigzag((packed as nat / 0x100000000) % 0x10000000000000000) as i64)
    }

    proof fn lemma_unpack_pack(&self, rhs: &i64) {
        lemma_half_bounds();
        lemma_zigzag_range(*rhs as int, 0x8000000000000000);
        lemma_split_packed(*self as nat, zigzag(*rhs as int), 0x100000000);
        lemma_small_mod(zigzag(*rhs as int), 0x10000000000000000);
        lemma_unzigzag_zigzag(*rhs as int);
    }

    fn pack(&self, rhs: &i64) -> (r: u128) {
        pack_u32_i64(*self, *rhs)
    }

    fn unpack(packed: u128) -> (r: (u32, i64)) {
        unpack_u32_i64(packed)
    }
}

impl Packable<u32, u128> for i64 {
    open spec fn spec_pack(&self, rhs: &u32) -> u128 {
        packed(*rhs as nat, zigzag(*self as int), 32) as u128
    }

    open spec fn spec_unpack(packed: u128) -> (i64, u32) {
        (unzigzag((packed as nat / 0x100000000) % 0x10000000000000000) as i64, (packed as nat % 0x100000000) as u32)
    }

    proof fn lemma_unpack_pack(&self, rhs: &u32) {
        lemma_half_bounds();
        lemma_zigzag_range(*self as int, 0x8000000000000000);
        lemma_split_packed(*rhs as nat, zigzag(*self as int), 0x100000000);
        lemma_small_mod(zigzag(*self as int), 0x10000000000000000);
        lemma_unzigzag_zigzag(*self as int);
    }

    fn pack(&self, rhs: &u32) -> (r: u128) {
        pack_i64_u32(*self, *rhs)
    }

    fn unpack(packed: u128) -> (r: (i64, u32)) {
        unpack_i64_u32(packed)
    }
}

impl Packable<u64, u128> for i32 {
    open spec fn spec_pack(&self, rhs: &u64) -> u128 {
        packed(zigzag(*self as int), *rhs as nat, 32) as u128
    }

    open spec fn spec_unpack(packed: u128) -> (i32, u64) {
        (unzigzag(packed as nat % 0x100000000) as i32, ((packed as nat / 0x100000000) % 0x10000000000000000) as u64)
    }

    proof fn lemma_unpack_pack(&self, rhs: &u64) {
        lemma_half_bounds();
        lemma_zigzag_range(*self as int, 0x80000000);
        lemma_split_packed(zigzag(*self as int), *rhs as nat, 0x100000000);
        lemma_small_mod(*rhs as nat, 0x10000000000000000);
        lemma_unzigzag_zigzag(*self as int);
    }

    fn pack(&self, rhs: &u64) -> (r: u128) {
        pack_i32_u64(*self, *rhs)
    }

    fn unpack(packed: u128) -> (r: (i32, u64)) {
        unpack_i32_u64(packed)
    }
}

impl Packable<i32, u128> for u64 {
    open spec fn spec_pack(&self, rhs: &i32) -> u128 {
        packed(zigzag(*rhs as int), *self as nat, 32) as u128
    }

    open spec fn spec_unpack(packed: u128) -> (u64, i32) {
        (((packed as nat / 0x100000000) % 0x10000000000000000) as u64, unzigzag(packed as nat % 0x100000000) as i32)
    }

    proof fn lemma_unpack_pack(&self, rhs: &i32) {
        lemma_half_bounds();
        lemma_zigzag_range(*rhs as int, 0x80000000);
        lemma_split_packed(zigzag(*rhs as int), *self as nat, 0x100000000);
        lemma_small_mod(*self as nat, 0x10000000000000000);
        lemma_unzigzag_zigzag(*rhs as int);
    }

    fn pack(&self, rhs: &i32) -> (r: u128) {
        pack_u64_i32(*self, *rhs)
    }

    fn unpack(packed: u128) -> (r: (u64, i32)) {
        unpack_u64_i32(packed)
    }
}

/// Packs two `u128` into a `U256`: `low` in the low half, `high` in the high half.
pub fn pack_u128(low: u128, high: u128) -> (r: U256)
    ensures
        u256_value(r) == packed(low as nat, high as nat, 128),
{
    proof {
        lemma_pow2_256();
    }
    U256 { low, high }
}

/// Unpacks a `U256` into two `u128`: the low half and the high half.
pub fn unpack_u128(value: U256) -> (r: (u128, u128))
    ensures
        r.0 as nat == u256_value(value) % two_128(),
        r.1 as nat == u256_value(value) / two_128(),
{
    proof {
        lemma_split_packed(value.low as nat, value.high as nat, two_128());
    }
    (value.low, value.high)
}

/// Packs two `i128` into a `U256`, zigzag encoding each first.
pub fn pack_i128(low: i128, high: i128) -> (r: U256)
    ensures
        u256_value(r) == packed(zigzag(low as int), zigzag(high as int), 128),
{
    pack_u128(zigzag_encode_i128(low), zigzag_encode_i128(high))
}

/// Unpacks a `U256` into two `i128`, zigzag decoding each half.
pub fn unpack_i128(value: U256) -> (r: (i128, i128))
    ensures
        r.0 as int == unzigzag(u256_value(value) % two_128()),
        r.1 as int == unzigzag(u256_value(value) / two_128()),
{
    let (low, high) = unpack_u128(value);
    (zigzag_decode_i128(low), zigzag_decode_i128(high))
}

/// Packs `u128` and `i128` into a single `U256`: the unsigned value low, the zigzag encoded
/// signed value high.
pub fn pack_u128_i128(a: u128, b: i128) -> (r: U256)
    ensures
        u256_value(r) == packed(a as nat, zigzag(b as int), 128),
{
    pack_u128(a, zigzag_encode_i128(b))
}

/// Packs `i128` and `u128` into a single `U256`: the unsigned value low, the zigzag encoded
/// signed value high.
pub fn pack_i128_u128(a: i128, b: u128) -> (r: U256)
    ensures
        u256_value(r) == packed(b as nat, zigzag(a as int), 128),
{
    pack_u128_i128(b, a)
}

/// Unpacks a `U256` into `u128` and `i128` values.
pub fn unpack_u128_i128(value: U256) -> (r: (u128, i128))
    ensures
        r.0 as nat == u256_value(value) % two_128(),
        r.1 as int == unzigzag(u256_value(value) / two_128()),
{
    let (low, high) = unpack_u128(value);
    (low, zigzag_decode_i128(high))
}

/// Unpacks a `U256` into `i128` and `u128` values.
pub fn unpack_i128_u128(value: U256) -> (r: (i128, u128))
    ensures
        r.0 as int == unzigzag(u256_value(value) / two_128()),
        r.1 as nat == u256_value(value) % two_128(),
{
    let (a, b) = unpack_u128_i128(value);
    (b, a)
}

impl Packable<u128, U256> for u128 {
    open spec fn spec_pack(&self, rhs: &u128) -> U256 {
        u256_of(packed(*self as nat, *rhs as nat, 128))
    }

    open spec fn spec_unpack(packed: U256) -> (u128, u128) {
        ((u256_value(packed) % two_128()) as u128, (u256_value(packed) / two_128()) as u128)
    }

    proof fn lemma_unpack_pack(&self, rhs: &u128) {
        lemma_pow2_256();
        lemma_split_packed(*self as nat, *rhs as nat, two_128());
        crate::wide::lemma_u256_of(packed(*self as nat, *rhs as nat, 128));
        assert((*self as nat) + *rhs as nat * two_128() < two_128() * two_128()) by (nonlinear_arith)
            requires
                (*self as nat) < two_128(),
                (*rhs as nat) < two_128(),
        ;
    }

    fn pack(&self, rhs: &u128) -> (r: U256) {
        let r = pack_u128(*self, *rhs);
        proof {
            lemma_pow2_256();
            crate::wide::lemma_u256_value(r);
        }
        r
    }

    fn unpack(packed: U256) -> (r: (u128, u128)) {
        unpack_u128(packed)
    }
}

impl Packable<i128, U256> for i128 {
    open spec fn spec_pack(&self, rhs: &i128) -> U256 {
        u256_of(packed(zigzag(*self as int), zigzag(*rhs as int), 128))
    }

    open spec fn spec_unpack(packed: U256) -> (i128, i128) {
        (unzigzag(u256_value(packed) % two_128()) as i128, unzigzag(u256_value(packed) / two_128()) as i128)
    }

    proof fn lemma_unpack_pack(&self, rhs: &i128) {
        lemma_pow2_256();
        lemma_zigzag_range(*self as int, 0x8000_0000_0000_0000_0000_0000_0000_0000);
        lemma_zigzag_range(*rhs as int, 0x8000_0000_0000_0000_0000_0000_0000_0000);
        lemma_split_packed(zigzag(*self as int), zigzag(*rhs as int), two_128());
        crate::wide::lemma_u256_of(packed(zigzag(*self as int), zigzag(*rhs as int), 128));
        assert(zigzag(*self as int) + zigzag(*rhs as int) * two_128() < two_128() * two_128()) by (nonlinear_arith)
            requires
                (zigzag(*self as int)) < two_128(),
                (zigzag(*rhs as int)) < two_128(),
        ;
        lemma_unzigzag_zigzag(*self as int);
        lemma_unzigzag_zigzag(*rhs as int);
    }

    fn pack(&self, rhs: &i128) -> (r: U256) {
        let r = pack_i128(*self, *rhs);
        proof {
            lemma_pow2_256();
            crate::wide::lemma_u256_value(r);
        }
        r
    }

    fn unpack(packed: U256) -> (r: (i128, i128)) {
        unpack_i128(packed)
    }
}

impl Packable<i128, U256> for u128 {
    open spec fn spec_pack(&self, rhs: &i128) -> U256 {
        u256_of(packed(*self as nat, zigzag(*rhs as int), 128))
    }

    open spec fn spec_unpack(packed: U256) -> (u128, i128) {
        ((u256_value(packed) % two_128()) as u128, unzigzag(u256_value(packed) / two_128()) as i128)
    }

    proof fn lemma_unpack_pack(&self, rhs: &i128) {
        lemma_pow2_256();
        lemma_zigzag_range(*rhs as int, 0x8000_0000_0000_0000_0000_0000_0000_0000);
        lemma_split_packed(*self as nat, zigzag(*rhs as int), two_128());
        crate::wide::lemma_u256_of(packed(*self as nat, zigzag(*rhs as int), 128));
        assert((*self as nat) + zigzag(*rhs as int) * two_128() < two_128() * two_128()) by (nonlinear_arith)
            requires
                (*self as nat) < two_128(),
                (zigzag(*rhs as int)) < two_128(),
        ;
        lemma_unzigzag_zigzag(*rhs as int);
    }

    fn pack(&self, rhs: &i128) -> (r: U256) {
        let r = pack_u128_i128(*self, *rhs);
        proof {
            lemma_pow2_256();
            crate::wide::lemma_u256_value(r);
        }
        r
    }

    fn unpack(packed: U256) -> (r: (u128, i128)) {
        unpack_u128_i128(packed)
    }
}

impl Packable<u128, U256> for i128 {
    open spec fn spec_pack(&self, rhs: &u128) -> U256 {
        u256_of(packed(*rhs as nat, zigzag(*self as int), 128))
    }

    open spec fn spec_unpack(packed: U256) -> (i128, u128) {
        (unzigzag(u256_value(packed) / two_128()) as i128, (u256_value(packed) % two_128()) as u128)
    }

    proof fn lemma_unpack_pack(&self, rhs: &u128) {
        lemma_pow2_256();
        lemma_zigzag_range(*self as int, 0x8000_0000_0000_0000_0000_0000_0000_0000);
        lemma_split_packed(*rhs as nat, zigzag(*self as int), two_128());
        crate::wide::lemma_u256_of(packed(*rhs as nat, zigzag(*self as int), 128));
        assert((*rhs as nat) + zigzag(*self as int) * two_128() < two_128() * two_128()) by (nonlinear_arith)
            requires
                (*rhs as nat) < two_128(),
                (zigzag(*self as int)) < two_128(),
        ;
        lemma_unzigzag_zigzag(*self as int);
    }

    fn pack(&self, rhs: &u128) -> (r: U256) {
        let r = pack_i128_u128(*self, *rhs);
        proof {
            lemma_pow2_256();
            crate::wide::lemma_u256_value(r);
        }
        r
    }

    fn unpack(packed: U256) -> (r: (i128, u128)) {
        unpack_i128_u128(packed)
    }
}

} // verus!
