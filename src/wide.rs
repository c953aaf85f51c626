use vstd::arithmetic::power2::pow2;
use vstd::prelude::*;

use crate::error::{DecodeError, EncodeError};
use crate::leb128::{
    decode_leb128, encoded_into, groups_value, leb128, lemma_decode_leb128, lemma_decoded_fits,
    lemma_groups_value_append, lemma_leb128_len, varint_length,
};
use crate::primitives::lemma_width_bounds;
use crate::utils::Buffer;
use crate::varint::Varint;

verus! {

/// A 256-bit unsigned integer held as two 128-bit halves: the value is
/// `low + high * 2^128`. Two packed 128-bit values travel as one of these.
#[derive(Debug, Clone, Copy, PartialEq, Eq, Structural)]
pub struct U256 {
    /// The low 128 bits.
    pub low: u128,
    /// The high 128 bits.
    pub high: u128,
}

/// `2^128`, the weight of the high half.
pub open spec fn two_128() -> nat {
    0x100000000000000000000000000000000nat
}

/// The number a `U256` holds.
pub open spec fn u256_value(v: U256) -> nat {
    v.low as nat + v.high as nat * two_128()
}

/// The `U256` that holds `v`, for `v` below `2^256`.
pub open spec fn u256_of(v: nat) -> U256 {
    U256 { low: (v % two_128()) as u128, high: (v / two_128()) as u128 }
}

/// `2^256` is the square of `2^128`.
pub proof fn lemma_pow2_256()
    ensures
        pow2(256) == two_128() * two_128(),
        pow2(128) == two_128(),
{
    lemma_width_bounds();
    vstd::arithmetic::power2::lemma_pow2_adds(128, 128);
}

/// Every `U256` holds a number below `2^256`, and is the `U256` of that number.
pub proof fn lemma_u256_value(v: U256)
    ensures
        u256_value(v) < pow2(256),
        u256_of(u256_value(v)) == v,
{
    lemma_pow2_256();
    let t: nat = two_128();
    assert(v.low + v.high * t < t * t) by (nonlinear_arith)
        requires
            v.low < t,
            v.high < t,
    ;
    crate::packable::lemma_split_packed(v.low as nat, v.high as nat, t);
}

/// The `U256` of a number below `2^256` holds that number.
pub proof fn lemma_u256_of(v: nat)
    requires
        v < pow2(256),
    ensures
        u256_value(u256_of(v)) == v,
{
    lemma_pow2_256();
    let t: nat = two_128();
    crate::packable::lemma_pack_split(v, t);
    assert(v / t < t) by {
        crate::leb128::lemma_div_below(v as int, t as int, t as int);
    }
}

/// Divides by 128: shifts the value down by seven bits across the halves.
fn shr7(v: U256) -> (r: U256)
    ensures
        u256_value(r) == u256_value(v) / 128,
        u256_value(v) % 128 == v.low % 128,
{
    let r = U256 { low: v.low / 128 + (v.high % 128) * 0x2000000000000000000000000000000, high: v.high / 128 };
    proof {
        let l = v.low as int;
        let h = v.high as int;
        let q = (l / 128 + (h % 128) * 0x2000000000000000000000000000000 + (h / 128) * two_128()) as int;
        assert(u256_value(r) == q);
        assert(u256_value(v) == 128 * q + l % 128);
        vstd::arithmetic::div_mod::lemma_fundamental_div_mod_converse(
            u256_value(v) as int,
            128,
            q,
            l % 128,
        );
    }
    r
}

/// Returns the encoded length of a `U256` in LEB128 variable length format.
pub fn encoded_u256_varint_len(value: U256) -> (r: usize)
    ensures
        r == leb128(u256_value(value)).len(),
        1 <= r <= 37,
{
    proof {
        lemma_u256_value(value);
        vstd::arithmetic::power2::lemma_pow2_strictly_increases(256, 259);
        lemma_leb128_len(u256_value(value), 37);
    }
    let mut x = value;
    let mut n: usize = 1;
    while !(x.high == 0 && x.low < 128)
        invariant
            n + leb128(u256_value(x)).len() == leb128(u256_value(value)).len() + 1,
            leb128(u256_value(value)).len() <= 37,
            leb128(u256_value(x)).len() >= 1,
        decreases u256_value(x),
    {
        proof {
            lemma_leb128_len(u256_value(x) / 128, 1);
        }
        x = shr7(x);
        n = n + 1;
    }
    n
}

/// Writes the LEB128 encoding of `value` to the front of `buf`, which has room for it.
fn put_u256(value: U256, buf: &mut [u8])
    requires
        leb128(u256_value(value)).len() <= old(buf).len(),
    ensures
        final(buf).len() == old(buf).len(),
        final(buf)@.take(leb128(u256_value(value)).len() as int) == leb128(u256_value(value)),
        final(buf)@.skip(leb128(u256_value(value)).len() as int) == old(buf)@.skip(
            leb128(u256_value(value)).len() as int,
        ),
{
    let ghost bytes = leb128(u256_value(value));
    let ghost len = bytes.len();
    let mut x = value;
    let mut i: usize = 0;
    while !(x.high == 0 && x.low < 128)
        invariant
            bytes == leb128(u256_value(value)),
            len == bytes.len() <= buf.len(),
            buf.len() == old(buf).len(),
            i + leb128(u256_value(x)).len() == len,
            leb128(u256_value(x)) == bytes.skip(i as int),
            forall|j: int| 0 <= j < i ==> buf@[j] == bytes[j],
            forall|j: int| i <= j < buf.len() ==> buf@[j] == old(buf)@[j],
        decreases u256_value(x),
    {
        let next = shr7(x);
        proof {
            let v = u256_value(x);
            assert(v >= 128);
            assert(leb128(v) == seq![(v % 128 + 128) as u8] + leb128(v / 128));
            assert(bytes[i as int] == leb128(v)[0]);
            assert(leb128(v).drop_first() =~= leb128(v / 128));
            assert(bytes.skip(i as int + 1) =~= bytes.skip(i as int).drop_first());
        }
        buf[i] = (x.low % 128 + 128) as u8;
        x = next;
        i = i + 1;
    }
    proof {
        assert(bytes[i as int] == leb128(u256_value(x))[0]);
    }
    buf[i] = x.low as u8;
    proof {
        assert(buf@.take(len as int) =~= bytes);
        assert(buf@.skip(len as int) =~= old(buf)@.skip(len as int));
    }
}

/// Encodes a `U256` value into LEB128 variable length format, and writes it to the buffer.
pub fn encode_u256_varint_to(value: U256, buf: &mut [u8]) -> (r: Result<usize, EncodeError>)
    ensures
        encoded_into(leb128(u256_value(value)), old(buf)@, final(buf)@, r),
{
    let len = encoded_u256_varint_len(value);
    if buf.len() < len {
        return Err(EncodeError::insufficient_space(len, buf.len()));
    }
    put_u256(value, buf);
    Ok(len)
}

/// Encodes a `U256` value into LEB128 variable length format, and returns it in a buffer.
pub fn encode_u256_varint(value: U256) -> (r: Buffer<38>)
    ensures
        r@ == leb128(u256_value(value)),
{
    let len = encoded_u256_varint_len(value);
    let mut data = [0u8; 38];
    put_u256(value, &mut data);
    data[37] = len as u8;
    proof {
        assert(data@.take(len as int) =~= leb128(u256_value(value)));
    }
    Buffer::new(data)
}

/// Decodes a `U256` in LEB128 encoded format from the buffer.
///
/// Returns the bytes read and the decoded value if successful.
pub fn decode_u256_varint(buf: &[u8]) -> (r: Result<(usize, U256), DecodeError>)
    ensures
        match r {
            Ok((n, v)) => decode_leb128(buf@, 256) == Ok::<(nat, nat), DecodeError>(
                (n as nat, u256_value(v)),
            ),
            Err(e) => decode_leb128(buf@, 256) == Err::<(nat, nat), DecodeError>(e),
        },
{
    proof {
        vstd::arithmetic::power2::lemma2_to64();
    }
    let mut i: usize = 0;
    let mut n: usize = 0;
    loop
        invariant
            i <= 36,
            varint_length(buf@, 256, 0) == varint_length(buf@, 256, i as nat),
            pow2(4) == 16,
        ensures
            varint_length(buf@, 256, 0) == Ok::<nat, DecodeError>(n as nat),
        decreases 36 - i,
    {
        if i >= buf.len() {
            return Err(DecodeError::InsufficientData { available: buf.len() });
        }
        if i >= 36 {
            if buf[i] >= 16 {
                return Err(DecodeError::Overflow);
            }
            n = i + 1;
            break;
        }
        if buf[i] < 128 {
            n = i + 1;
            break;
        }
        i = i + 1;
    }
    let ghost total = groups_value(buf@.take(n as int));
    proof {
        lemma_decoded_fits(buf@, 256);
        lemma_pow2_256();
        assert(buf@.subrange(n as int, n as int) =~= Seq::<u8>::empty());
        assert(groups_value(Seq::<u8>::empty()) == 0);
    }
    let mut lo: u128 = 0;
    let mut hi: u128 = 0;
    let mut j: usize = n;
    while j > 0
        invariant
            j <= n <= buf.len(),
            total == groups_value(buf@.take(n as int)),
            total < two_128() * two_128(),
            lo as nat + hi as nat * two_128() == groups_value(buf@.subrange(j as int, n as int)),
        decreases j,
    {
        let b = buf[j - 1];
        proof {
            let s = buf@.subrange(j - 1, n as int);
            assert(s.drop_first() =~= buf@.subrange(j as int, n as int));
            assert(s[0] == b);
            let g = groups_value(s);
            assert(g == (b % 128) as nat + 128 * (lo as nat + hi as nat * two_128()));
            assert(buf@.take(n as int) =~= buf@.take(j - 1) + s);
            lemma_groups_value_append(buf@.take(j - 1), s);
            vstd::arithmetic::power2::lemma_pow2_pos((7 * (j - 1)) as nat);
            assert(buf@.take(j - 1).len() == j - 1);
            assert(g <= total) by (nonlinear_arith)
                requires
                    total == groups_value(buf@.take(j - 1)) + pow2((7 * (j - 1)) as nat) * g,
                    pow2((7 * (j - 1)) as nat) >= 1,
            ;
            assert(hi as nat * 128 + lo as nat / 0x2000000000000000000000000000000 < two_128());
        }
        let new_hi = hi * 128 + lo / 0x2000000000000000000000000000000;
        let new_lo = (lo % 0x2000000000000000000000000000000) * 128 + (b % 128) as u128;
        lo = new_lo;
        hi = new_hi;
        j = j - 1;
    }
    proof {
        assert(buf@.subrange(0, n as int) =~= buf@.take(n as int));
    }
    Ok((n, U256 { low: lo, high: hi }))
}

impl Varint for U256 {
    const MIN_ENCODED_LEN: usize = 1;

    const MAX_ENCODED_LEN: usize = 37;

    open spec fn wire(&self) -> Seq<u8> {
        leb128(u256_value(*self))
    }

    open spec fn wire_decode(buf: Seq<u8>) -> Result<(nat, Self), DecodeError> {
        match decode_leb128(buf, 256) {
            Ok((n, v)) => Ok((n, u256_of(v))),
            Err(e) => Err(e),
        }
    }

    proof fn lemma_wire_len(&self) {
        lemma_u256_value(*self);
        vstd::arithmetic::power2::lemma_pow2_strictly_increases(256, 259);
        lemma_leb128_len(u256_value(*self), 37);
    }

    proof fn lemma_round_trip(&self, rest: Seq<u8>) {
        lemma_u256_value(*self);
        lemma_decode_leb128(u256_value(*self), rest, 256);
    }

    proof fn lemma_decode_len(buf: Seq<u8>) {
        lemma_decoded_fits(buf, 256);
    }

    fn encoded_len(&self) -> (r: usize) {
        encoded_u256_varint_len(*self)
    }

    fn encode(&self, buf: &mut [u8]) -> (r: Result<usize, EncodeError>) {
        encode_u256_varint_to(*self, buf)
    }

    fn decode(buf: &[u8]) -> (r: Result<(usize, Self), DecodeError>) {
        let r = decode_u256_varint(buf);
        proof {
            if let Ok((n, v)) = r {
                lemma_u256_value(v);
            }
        }
        r
    }
}

} // verus!
