use vstd::arithmetic::power2::{
    lemma2_to64, lemma2_to64_rest, lemma_pow2_adds, lemma_pow2_pos, lemma_pow2_strictly_increases,
    pow2,
};
use vstd::prelude::*;

use crate::error::{DecodeError, EncodeError};

verus! {

/// The LEB128 bytes of `v`: seven value bits per byte, least significant group first, the
/// high bit set on every byte but the last.
pub open spec fn leb128(v: nat) -> Seq<u8>
    decreases v,
{
    if v < 128 {
        seq![v as u8]
    } else {
        seq![(v % 128 + 128) as u8] + leb128(v / 128)
    }
}

/// The number carried by the low seven bits of each byte, least significant group first.
pub open spec fn groups_value(s: Seq<u8>) -> nat
    decreases s.len(),
{
    if s.len() == 0 {
        0
    } else {
        (s[0] % 128) as nat + 128 * groups_value(s.drop_first())
    }
}

/// The bit widths of the native integers, and the 256 bits of two packed 128-bit halves.
pub open spec fn is_width(bits: nat) -> bool {
    bits == 8 || bits == 16 || bits == 32 || bits == 64 || bits == 128 || bits == 256
}

/// The most bytes a value of `bits` bits takes.
pub open spec fn max_len(bits: nat) -> nat {
    bits / 7 + 1
}

/// The length of the varint at the front of `buf`, scanning from byte `i`, for a target of
/// `bits` bits. At position `bits / 7`, the last one the width allows, the byte must hold
/// only the `bits % 7` bits left, and so has no continuation bit.
pub open spec fn varint_length(buf: Seq<u8>, bits: nat, i: nat) -> Result<nat, DecodeError>
    decreases bits / 7 - i,
{
    if i >= buf.len() {
        Err(DecodeError::InsufficientData { available: buf.len() as usize })
    } else if i >= bits / 7 {
        if buf[i as int] >= pow2(bits % 7) {
            Err(DecodeError::Overflow)
        } else {
            Ok(i + 1)
        }
    } else if buf[i as int] < 128 {
        Ok(i + 1)
    } else {
        varint_length(buf, bits, i + 1)
    }
}

/// What decoding the front of `buf` into a `bits`-bit unsigned integer gives: the number of
/// bytes read and the value.
pub open spec fn decode_leb128(buf: Seq<u8>, bits: nat) -> Result<(nat, nat), DecodeError> {
    match varint_length(buf, bits, 0) {
        Ok(n) => Ok((n, groups_value(buf.take(n as int)))),
        Err(e) => Err(e),
    }
}

/// What an encode of `bytes` into a buffer that held `before` and holds `after` must have
/// done, given its result `r`: on success the bytes lead the buffer and the rest is kept;
/// the call fails exactly when the buffer is too short, reports both lengths, and writes
/// nothing.
pub open spec fn encoded_into(
    bytes: Seq<u8>,
    before: Seq<u8>,
    after: Seq<u8>,
    r: Result<usize, EncodeError>,
) -> bool {
    &&& r is Ok <==> bytes.len() <= before.len()
    &&& match r {
        Ok(n) => {
            &&& n == bytes.len()
            &&& after.len() == before.len()
            &&& after.take(n as int) == bytes
            &&& after.skip(n as int) == before.skip(n as int)
        },
        Err(e) => {
            &&& e.is_insufficient_space(bytes.len(), before.len())
            &&& after == before
        },
    }
}

proof fn lemma_pow2_7()
    ensures
        pow2(7) == 128,
{
    lemma2_to64();
}

/// `pow2(7 * (n + 1))` is 128 times `pow2(7 * n)`.
proof fn lemma_pow2_step(n: nat)
    ensures
        pow2(7 * (n + 1)) == 128 * pow2(7 * n),
{
    lemma_pow2_7();
    lemma_pow2_adds(7 * n, 7);
}

/// A value takes at most `n` bytes exactly when it is below `2^(7n)`.
pub proof fn lemma_leb128_len(v: nat, n: nat)
    requires
        n >= 1,
    ensures
        leb128(v).len() >= 1,
        leb128(v).len() <= n <==> v < pow2(7 * n),
    decreases v,
{
    lemma_pow2_7();
    if n > 1 {
        lemma_pow2_strictly_increases(7, 7 * n);
    }
    if v >= 128 {
        if n > 1 {
            lemma_leb128_len(v / 128, (n - 1) as nat);
            lemma_pow2_step((n - 1) as nat);
        } else {
            lemma_leb128_len(v / 128, 1);
        }
    }
}

/// The bytes of `leb128(v)` carry `v`.
pub proof fn lemma_groups_value_leb128(v: nat)
    ensures
        groups_value(leb128(v)) == v,
    decreases v,
{
    let s = leb128(v);
    if v < 128 {
        assert(s.drop_first() =~= Seq::<u8>::empty());
        assert(groups_value(s.drop_first()) == 0);
        assert(s[0] == v as u8);
    } else {
        lemma_groups_value_leb128(v / 128);
        assert(s.drop_first() =~= leb128(v / 128));
        assert(s[0] == (v % 128 + 128) as u8);
        assert((s[0] % 128) as nat == v % 128);
    }
    assert(groups_value(s) == (s[0] % 128) as nat + 128 * groups_value(s.drop_first()));
}

/// Every byte of `leb128(v)` but the last has its continuation bit set; the last carries the
/// highest group of `v`.
pub proof fn lemma_leb128_shape(v: nat)
    ensures
        forall|i: int| 0 <= i < leb128(v).len() - 1 ==> #[trigger] leb128(v)[i] >= 128,
        leb128(v).last() < 128,
        leb128(v).last() == v / pow2((7 * (leb128(v).len() - 1)) as nat),
    decreases v,
{
    lemma2_to64();
    if v >= 128 {
        lemma_leb128_shape(v / 128);
        let rest = leb128(v / 128);
        let k = (rest.len() - 1) as nat;
        assert(leb128(v) == seq![(v % 128 + 128) as u8] + rest);
        assert forall|i: int| 0 <= i < leb128(v).len() - 1 implies #[trigger] leb128(v)[i]
            >= 128 by {
            if i > 0 {
                assert(leb128(v)[i] == rest[i - 1]);
            }
        }
        assert(leb128(v).last() == rest.last());
        assert(leb128(v).len() - 1 == k + 1);
        lemma_pow2_step(k);
        lemma_pow2_pos(7 * k);
        vstd::arithmetic::div_mod::lemma_div_denominator(v as int, 128, pow2(7 * k) as int);
        let e = (7 * (leb128(v).len() - 1)) as nat;
        assert(e == 7 * (k + 1));
        assert(rest.last() == (v / 128) / pow2(7 * k));
        assert(leb128(v).last() == v / pow2(e));
    } else {
        assert(leb128(v).last() == v as u8);
        assert(leb128(v).len() == 1);
        assert(pow2(0) == 1);
        assert(leb128(v).last() == v / pow2(0));
    }
}

/// Reading groups across a join: the second part counts `2^(7 * a.len())` times over.
pub proof fn lemma_groups_value_append(a: Seq<u8>, b: Seq<u8>)
    ensures
        groups_value(a + b) == groups_value(a) + pow2(7 * a.len()) * groups_value(b),
    decreases a.len(),
{
    lemma_pow2_pos(0);
    if a.len() > 0 {
        let a1 = a.drop_first();
        lemma_groups_value_append(a1, b);
        assert((a + b).drop_first() =~= a1 + b);
        lemma_pow2_step(a1.len());
        let p = pow2(7 * a1.len());
        assert(7 * (a1.len() + 1) == 7 * a.len());
        assert((a + b)[0] == a[0]);
        assert(groups_value(a + b) == (a[0] % 128) as nat + 128 * groups_value(a1 + b));
        assert(groups_value(a) == (a[0] % 128) as nat + 128 * groups_value(a1));
        assert(128 * (groups_value(a1) + p * groups_value(b)) == 128 * groups_value(a1) + (128
            * p) * groups_value(b)) by (nonlinear_arith);
        assert(pow2(7 * a.len()) * groups_value(b) == (128 * p) * groups_value(b));
        assert(groups_value(a + b) == groups_value(a) + pow2(7 * a.len()) * groups_value(b));
    } else {
        lemma2_to64();
        assert(a + b =~= b);
        assert(groups_value(a) == 0);
        assert(pow2(7 * a.len()) == 1);
        assert(groups_value(a + b) == groups_value(b));
        assert(groups_value(a + b) == groups_value(a) + pow2(7 * a.len()) * groups_value(b));
    }
}

/// A number below `p * l` has fewer than `l` whole parts of size `p`.
pub proof fn lemma_div_below(v: int, p: int, l: int)
    requires
        0 <= v < p * l,
        p > 0,
    ensures
        v / p < l,
{
    vstd::arithmetic::div_mod::lemma_fundamental_div_mod(v, p);
    if v / p >= l {
        vstd::arithmetic::mul::lemma_mul_inequality(l, v / p, p);
        assert(p * (v / p) >= p * l) by (nonlinear_arith)
            requires
                v / p >= l,
                p > 0,
        ;
    }
}

/// The scan that decoding makes finds the end of `leb128(v)` when `v` fits the width.
proof fn lemma_varint_length_leb128(v: nat, rest: Seq<u8>, bits: nat, i: nat)
    requires
        is_width(bits),
        v < pow2(bits),
        i < leb128(v).len(),
    ensures
        varint_length(leb128(v) + rest, bits, i) == Ok::<nat, DecodeError>(leb128(v).len()),
    decreases leb128(v).len() - i,
{
    let s = leb128(v) + rest;
    let n = leb128(v).len();
    lemma_leb128_shape(v);
    lemma_pow2_strictly_increases(bits, 7 * max_len(bits));
    lemma_leb128_len(v, max_len(bits));
    assert(s[i as int] == leb128(v)[i as int]);
    if i < n - 1 {
        lemma_varint_length_leb128(v, rest, bits, i + 1);
    } else if i >= bits / 7 {
        let k = bits / 7;
        lemma_pow2_adds(7 * k, bits % 7);
        lemma_pow2_pos(7 * k);
        lemma_div_below(v as int, pow2(7 * k) as int, pow2(bits % 7) as int);
    }
}

/// Decoding the encoding of a value that fits the width gives back the value and its length,
/// whatever follows it.
pub proof fn lemma_decode_leb128(v: nat, rest: Seq<u8>, bits: nat)
    requires
        is_width(bits),
        v < pow2(bits),
    ensures
        decode_leb128(leb128(v) + rest, bits) == Ok::<(nat, nat), DecodeError>(
            (leb128(v).len(), v),
        ),
{
    lemma_leb128_len(v, 1);
    lemma_varint_length_leb128(v, rest, bits, 0);
    assert((leb128(v) + rest).take(leb128(v).len() as int) =~= leb128(v));
    lemma_groups_value_leb128(v);
}

/// `2^128`, the bound of every native unsigned integer.
proof fn lemma_pow2_128()
    ensures
        pow2(128) == 0x1_0000_0000_0000_0000_0000_0000_0000_0000,
{
    lemma2_to64_rest();
    lemma_pow2_adds(64, 64);
}

/// Each native integer's encoding has between one and `max_len(bits)` bytes.
pub proof fn lemma_leb128_len_in_width(v: nat, bits: nat)
    requires
        is_width(bits),
        v < pow2(bits),
    ensures
        1 <= leb128(v).len() <= max_len(bits),
{
    lemma_pow2_strictly_increases(bits, 7 * max_len(bits));
    lemma_leb128_len(v, max_len(bits));
}

/// Returns the number of bytes that the LEB128 encoding of `value` takes.
pub fn leb128_len(value: u128) -> (r: usize)
    ensures
        r == leb128(value as nat).len(),
        1 <= r <= 19,
{
    proof {
        lemma_pow2_128();
        lemma_leb128_len_in_width(value as nat, 128);
    }
    let mut x = value;
    let mut n: usize = 1;
    while x >= 128
        invariant
            n + leb128(x as nat).len() == leb128(value as nat).len() + 1,
            leb128(value as nat).len() <= 19,
            leb128(x as nat).len() >= 1,
        decreases x,
    {
        proof {
            lemma_leb128_len(x as nat / 128, 1);
        }
        x = x / 128;
        n = n + 1;
    }
    n
}

/// Writes the LEB128 encoding of `value` to the front of `buf`, which has room for it.
pub fn put_leb128(value: u128, buf: &mut [u8])
    requires
        leb128(value as nat).len() <= old(buf).len(),
    ensures
        final(buf).len() == old(buf).len(),
        final(buf)@.take(leb128(value as nat).len() as int) == leb128(value as nat),
        final(buf)@.skip(leb128(value as nat).len() as int) == old(buf)@.skip(
            leb128(value as nat).len() as int,
        ),
{
    let ghost bytes = leb128(value as nat);
    let ghost len = bytes.len();
    let mut x = value;
    let mut i: usize = 0;
    while x >= 128
        invariant
            bytes == leb128(value as nat),
            len == bytes.len() <= buf.len(),
            buf.len() == old(buf).len(),
            i + leb128(x as nat).len() == len,
            leb128(x as nat) == bytes.skip(i as int),
            forall|j: int| 0 <= j < i ==> buf@[j] == bytes[j],
            forall|j: int| i <= j < buf.len() ==> buf@[j] == old(buf)@[j],
        decreases x,
    {
        proof {
            assert(leb128(x as nat) == seq![(x as nat % 128 + 128) as u8] + leb128(x as nat / 128));
            assert(bytes[i as int] == leb128(x as nat)[0]);
            assert(leb128(x as nat).drop_first() =~= leb128(x as nat / 128));
            assert(bytes.skip(i as int + 1) =~= bytes.skip(i as int).drop_first());
        }
        buf[i] = (x % 128 + 128) as u8;
        x = x / 128;
        i = i + 1;
    }
    proof {
        assert(bytes[i as int] == leb128(x as nat)[0]);
    }
    buf[i] = x as u8;
    proof {
        assert(buf@.take(len as int) =~= bytes);
        assert(buf@.skip(len as int) =~= old(buf)@.skip(len as int));
    }
}

/// Writes the LEB128 encoding of `value` to the front of `buf` and returns its length; when
/// `buf` is too short, it is left as it was and the error gives both lengths.
pub fn write_leb128(value: u128, buf: &mut [u8]) -> (r: Result<usize, EncodeError>)
    ensures
        encoded_into(leb128(value as nat), old(buf)@, final(buf)@, r),
{
    let len = leb128_len(value);
    if buf.len() < len {
        return Err(EncodeError::insufficient_space(len, buf.len()));
    }
    put_leb128(value, buf);
    Ok(len)
}

/// The bound that the byte at position `bits / 7` must stay under.
fn last_byte_bound(bits: u32) -> (r: u8)
    requires
        is_width(bits as nat),
    ensures
        r as nat == pow2(bits as nat % 7),
        2 <= r <= 16,
{
    proof {
        lemma2_to64();
    }
    if bits == 8 || bits == 64 {
        2
    } else if bits == 32 || bits == 256 {
        16
    } else {
        4
    }
}

/// Reads the LEB128 value at the front of `buf` as a `bits`-bit unsigned integer, and
/// returns the number of bytes read with the value.
pub fn read_leb128(buf: &[u8], bits: u32) -> (r: Result<(usize, u128), DecodeError>)
    requires
        is_width(bits as nat),
        bits <= 128,
    ensures
        match r {
            Ok((n, v)) => decode_leb128(buf@, bits as nat) == Ok::<(nat, nat), DecodeError>(
                (n as nat, v as nat),
            ),
            Err(e) => decode_leb128(buf@, bits as nat) == Err::<(nat, nat), DecodeError>(e),
        },
{
    let last: usize = (bits / 7) as usize;
    let bound = last_byte_bound(bits);
    let mut result: u128 = 0;
    let mut mult: u128 = 1;
    let mut i: usize = 0;
    proof {
        lemma2_to64();
        lemma_pow2_128();
        assert(buf@.take(0) =~= Seq::<u8>::empty());
    }
    loop
        invariant
            is_width(bits as nat),
            bits <= 128,
            last == bits as nat / 7,
            bound as nat == pow2(bits as nat % 7),
            bound <= 16,
            i <= last,
            mult as nat == pow2(7 * i as nat),
            i <= buf.len(),
            result as nat == groups_value(buf@.take(i as int)),
            result < mult,
            varint_length(buf@, bits as nat, 0) == varint_length(buf@, bits as nat, i as nat),
        decreases last - i,
    {
        if i >= buf.len() {
            return Err(DecodeError::InsufficientData { available: buf.len() });
        }
        let b = buf[i];
        proof {
            assert(buf@.take(i + 1) =~= buf@.take(i as int) + seq![b]);
            lemma_groups_value_append(buf@.take(i as int), seq![b]);
            assert(seq![b].drop_first() =~= Seq::<u8>::empty());
            assert(groups_value(Seq::<u8>::empty()) == 0);
            assert(groups_value(seq![b]) == (b % 128) as nat);
            assert(buf@.take(i as int).len() == i);
            assert(pow2(7 * i as nat) * groups_value(seq![b]) == mult * (b % 128) as nat);
            assert(groups_value(buf@.take(i + 1)) == result + mult * (b % 128) as nat);
            let low = (b % 128) as u128;
            assert(low == (b % 128) as nat);
            assert(mult * (b % 128) as nat == low * mult) by (nonlinear_arith)
                requires
                    low == (b % 128) as nat,
            ;
            lemma_pow2_strictly_increases(7 * i as nat, 128);
        }
        if i >= last {
            if b >= bound {
                return Err(DecodeError::Overflow);
            }
            proof {
                let k = 7 * i as nat;
                lemma_pow2_adds(k, bits as nat % 7);
                assert(result + b * mult < bound * mult) by (nonlinear_arith)
                    requires
                        result < mult,
                        b < bound,
                ;
                assert(7 * i + bits % 7 == bits);
                assert(b % 128 == b);
                assert(varint_length(buf@, bits as nat, i as nat) == Ok::<nat, DecodeError>(
                    i as nat + 1,
                ));
                assert(k + bits as nat % 7 == bits as nat);
                assert(pow2(k) * pow2(bits as nat % 7) == pow2(bits as nat));
                assert(bound * mult == pow2(bits as nat));
                lemma_pow2_128();
                if bits < 128 {
                    lemma_pow2_strictly_increases(bits as nat, 128);
                }
                assert(b * mult <= 0x1_0000_0000_0000_0000_0000_0000_0000_0000) by (nonlinear_arith)
                    requires
                        result + b * mult < bound * mult,
                        bound * mult <= 0x1_0000_0000_0000_0000_0000_0000_0000_0000,
                        result >= 0,
                ;
            }
            result = result + (b as u128) * mult;
            assert(result as nat == groups_value(buf@.take(i + 1)));
            assert(varint_length(buf@, bits as nat, 0) == Ok::<nat, DecodeError>(i as nat + 1));
            return Ok((i + 1, result));
        }
        proof {
            lemma_pow2_step(i as nat);
            lemma_pow2_strictly_increases(7 * (i as nat + 1), 128);
            assert(result + (b % 128) * mult < 128 * mult) by (nonlinear_arith)
                requires
                    result < mult,
                    b % 128 < 128,
            ;
            lemma_pow2_128();
            assert(128 * mult < pow2(128));
            assert(result + ((b % 128) as u128) * mult < 0x1_0000_0000_0000_0000_0000_0000_0000_0000);
        }
        result = result + ((b % 128) as u128) * mult;
        if b < 128 {
            assert(varint_length(buf@, bits as nat, i as nat) == Ok::<nat, DecodeError>(
                i as nat + 1,
            ));
            assert(result as nat == groups_value(buf@.take(i + 1)));
            return Ok((i + 1, result));
        }
        mult = mult * 128;
        i = i + 1;
    }
}

/// A value that decodes successfully fits the width.
pub proof fn lemma_decoded_fits(buf: Seq<u8>, bits: nat)
    requires
        is_width(bits),
    ensures
        decode_leb128(buf, bits) matches Ok((n, v)) ==> v < pow2(bits) && 1 <= n <= buf.len()
            && n <= max_len(bits),
{
    if let Ok((n, v)) = decode_leb128(buf, bits) {
        lemma_varint_length_ok(buf, bits, 0);
        let k = bits / 7;
        let last = (n - 1) as nat;
        let head = buf.take(last as int);
        let b = buf[last as int];
        assert(buf.take(n as int) =~= head + seq![b]);
        lemma_groups_value_append(head, seq![b]);
        assert(seq![b].drop_first() =~= Seq::<u8>::empty());
        assert(groups_value(Seq::<u8>::empty()) == 0);
        assert(groups_value(seq![b]) == (b % 128) as nat);
        lemma_groups_value_bound(head);
        let p = pow2(7 * last);
        assert(v == groups_value(head) + p * (b % 128) as nat);
        if last < k {
            assert(v < 128 * p) by (nonlinear_arith)
                requires
                    v == groups_value(head) + p * (b % 128) as nat,
                    groups_value(head) < p,
                    (b % 128) < 128,
            ;
            lemma_pow2_step(last);
            if 7 * (last + 1) < bits {
                lemma_pow2_strictly_increases(7 * (last + 1), bits);
            }
        } else {
            let l = pow2(bits % 7);
            lemma2_to64();
            assert(l <= 16);
            assert(b < l);
            assert(b % 128 == b);
            assert(v < l * p) by (nonlinear_arith)
                requires
                    v == groups_value(head) + p * (b % 128) as nat,
                    groups_value(head) < p,
                    (b % 128) < l,
            ;
            lemma_pow2_adds(7 * last, bits % 7);
            assert(7 * last + bits % 7 == bits);
        }
    }
}

/// The low seven bits of `s.len()` bytes carry less than `2^(7 * s.len())`.
pub proof fn lemma_groups_value_bound(s: Seq<u8>)
    ensures
        groups_value(s) < pow2(7 * s.len()),
    decreases s.len(),
{
    lemma2_to64();
    if s.len() > 0 {
        let t = s.drop_first();
        lemma_groups_value_bound(t);
        lemma_pow2_step(t.len());
        assert(7 * (t.len() + 1) == 7 * s.len());
        assert((s[0] % 128) as nat + 128 * groups_value(t) < 128 * pow2(7 * t.len()))
            by (nonlinear_arith)
            requires
                groups_value(t) < pow2(7 * t.len()),
                (s[0] % 128) < 128,
        ;
    }
}

/// Where the scan ends: every byte it passed has the continuation bit, and the last one is
/// within what its position allows.
pub proof fn lemma_varint_length_ok(buf: Seq<u8>, bits: nat, i: nat)
    requires
        is_width(bits),
        i <= bits / 7,
        varint_length(buf, bits, i) is Ok,
    ensures
        varint_length(buf, bits, i) matches Ok(n) && i < n <= buf.len() && n <= max_len(bits)
            && (forall|j: int| i <= j < n - 1 ==> #[trigger] buf[j] >= 128) && (n - 1 < bits / 7
            ==> buf[n - 1] < 128) && (n - 1 >= bits / 7 ==> buf[n - 1] < pow2(bits % 7)),
    decreases bits / 7 - i,
{
    if i < buf.len() && i < bits / 7 && buf[i as int] >= 128 {
        lemma_varint_length_ok(buf, bits, i + 1);
    }
}

/// An encode into a buffer with room for the encoding succeeds and reports the encoding's
/// length.
pub proof fn lemma_encode_len_agrees(
    bytes: Seq<u8>,
    before: Seq<u8>,
    after: Seq<u8>,
    r: Result<usize, EncodeError>,
)
    requires
        encoded_into(bytes, before, after, r),
        bytes.len() <= before.len(),
    ensures
        r == Ok::<usize, EncodeError>(bytes.len() as usize),
{
}

/// An encode into a buffer shorter than the encoding fails, reports exactly the encoding's
/// length as requested and the buffer's as available, and leaves the buffer as it was.
pub proof fn lemma_encode_short_buffer(
    bytes: Seq<u8>,
    before: Seq<u8>,
    after: Seq<u8>,
    r: Result<usize, EncodeError>,
)
    requires
        encoded_into(bytes, before, after, r),
        before.len() < bytes.len(),
    ensures
        r matches Err(e) && e.is_insufficient_space(bytes.len(), before.len()),
        after == before,
{
}

/// A buffer that ends before any byte could end the value, an empty one included, decodes to
/// `InsufficientData`.
pub proof fn lemma_decode_truncated(buf: Seq<u8>, bits: nat)
    requires
        is_width(bits),
        buf.len() < max_len(bits),
        forall|i: int| 0 <= i < buf.len() ==> #[trigger] buf[i] >= 128,
    ensures
        decode_leb128(buf, bits) == Err::<(nat, nat), DecodeError>(
            DecodeError::InsufficientData { available: buf.len() as usize },
        ),
{
    lemma_scan_truncated(buf, bits, 0);
}

proof fn lemma_scan_truncated(buf: Seq<u8>, bits: nat, i: nat)
    requires
        is_width(bits),
        i <= buf.len() < max_len(bits),
        forall|j: int| 0 <= j < buf.len() ==> #[trigger] buf[j] >= 128,
    ensures
        varint_length(buf, bits, i) == Err::<nat, DecodeError>(
            DecodeError::InsufficientData { available: buf.len() as usize },
        ),
    decreases buf.len() - i,
{
    if i < buf.len() {
        lemma_scan_truncated(buf, bits, i + 1);
    }
}

/// A buffer whose first `max_len(bits)` bytes all carry the continuation bit holds more
/// bits than the width: it decodes to `Overflow`.
pub proof fn lemma_decode_overflow(buf: Seq<u8>, bits: nat)
    requires
        is_width(bits),
        buf.len() >= max_len(bits),
        forall|i: int| 0 <= i < max_len(bits) ==> #[trigger] buf[i] >= 128,
    ensures
        decode_leb128(buf, bits) == Err::<(nat, nat), DecodeError>(DecodeError::Overflow),
{
    lemma2_to64();
    lemma_scan_overflow(buf, bits, 0);
}

proof fn lemma_scan_overflow(buf: Seq<u8>, bits: nat, i: nat)
    requires
        is_width(bits),
        i <= bits / 7,
        buf.len() >= max_len(bits),
        forall|j: int| 0 <= j < max_len(bits) ==> #[trigger] buf[j] >= 128,
        pow2(bits % 7) <= 16,
    ensures
        varint_length(buf, bits, i) == Err::<nat, DecodeError>(DecodeError::Overflow),
    decreases bits / 7 - i,
{
    assert(buf[i as int] >= 128);
    if i < bits / 7 {
        lemma_scan_overflow(buf, bits, i + 1);
    }
}

/// A varint that ends within the width's byte budget but carries a value of `bits` bits or
/// more decodes to `Overflow`.
pub proof fn lemma_decode_overflow_value(buf: Seq<u8>, bits: nat, n: nat)
    requires
        is_width(bits),
        1 <= n <= max_len(bits),
        n <= buf.len(),
        forall|i: int| 0 <= i < n - 1 ==> #[trigger] buf[i] >= 128,
        buf[n - 1] < 128,
        groups_value(buf.take(n as int)) >= pow2(bits),
    ensures
        decode_leb128(buf, bits) == Err::<(nat, nat), DecodeError>(DecodeError::Overflow),
{
    let k = bits / 7;
    let last = (n - 1) as nat;
    let head = buf.take(last as int);
    let b = buf[last as int];
    assert(buf.take(n as int) =~= head + seq![b]);
    lemma_groups_value_append(head, seq![b]);
    assert(seq![b].drop_first() =~= Seq::<u8>::empty());
    assert(groups_value(Seq::<u8>::empty()) == 0);
    assert(groups_value(seq![b]) == (b % 128) as nat);
    lemma_groups_value_bound(head);
    let p = pow2(7 * last);
    let v = groups_value(buf.take(n as int));
    assert(v == groups_value(head) + p * (b % 128) as nat);
    if last < k {
        assert(v < 128 * p) by (nonlinear_arith)
            requires
                v == groups_value(head) + p * (b % 128) as nat,
                groups_value(head) < p,
                (b % 128) < 128,
        ;
        lemma_pow2_step(last);
        if 7 * (last + 1) < bits {
            lemma_pow2_strictly_increases(7 * (last + 1), bits);
        }
        assert(false);
    } else {
        let l = pow2(bits % 7);
        lemma_pow2_adds(7 * last, bits % 7);
        assert(7 * last + bits % 7 == bits);
        assert(b >= l) by {
            if b < l {
                assert(b % 128 == b);
                assert(v < l * p) by (nonlinear_arith)
                    requires
                        v == groups_value(head) + p * (b % 128) as nat,
                        groups_value(head) < p,
                        (b % 128) < l,
                ;
            }
        }
        lemma_scan_passes(buf, bits, 0, last);
    }
}

/// The scan passes over bytes with the continuation bit before the width's last position.
proof fn lemma_scan_passes(buf: Seq<u8>, bits: nat, i: nat, last: nat)
    requires
        is_width(bits),
        i <= last <= bits / 7,
        last < buf.len(),
        forall|j: int| 0 <= j < last ==> #[trigger] buf[j] >= 128,
    ensures
        varint_length(buf, bits, i) == varint_length(buf, bits, last),
    decreases last - i,
{
    if i < last {
        assert(buf[i as int] >= 128);
        lemma_scan_passes(buf, bits, i + 1, last);
    }
}

} // verus!
