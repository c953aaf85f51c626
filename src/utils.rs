use vstd::prelude::*;

verus! {

/// A read-only buffer that holds one LEB128 encoded value: `N - 1` bytes of room, and a last
/// byte that records how many of them are used.
#[derive(Debug, Clone, Copy)]
pub struct Buffer<const N: usize>([u8; N]);

impl<const N: usize> View for Buffer<N> {
    type V = Seq<u8>;

    /// The bytes in use.
    closed spec fn view(&self) -> Seq<u8> {
        self.0@.take(self.0@[N - 1] as int)
    }
}

impl<const N: usize> Buffer<N> {
    #[verifier::type_invariant]
    spec fn fits(self) -> bool {
        &&& N >= 1
        &&& self.0@[N - 1] < N
    }

    /// Takes an array whose first `data[N - 1]` bytes are in use.
    pub(crate) fn new(data: [u8; N]) -> (r: Self)
        requires
            N >= 1,
            data@[N - 1] < N,
        ensures
            r@ == data@.take(data@[N - 1] as int),
    {
        Buffer(data)
    }

    /// The number of bytes the buffer has room for.
    pub open spec fn capacity() -> nat {
        (N - 1) as nat
    }

    /// Returns the length of buffer.
    pub fn len(&self) -> (r: usize)
        ensures
            r == self@.len(),
            r <= Self::capacity(),
    {
        proof {
            use_type_invariant(self);
        }
        self.0[N - 1] as usize
    }

    /// Returns `true` if the buffer is empty.
    pub fn is_empty(&self) -> (r: bool)
        ensures
            r == (self@.len() == 0),
    {
        proof {
            use_type_invariant(self);
        }
        self.0[N - 1] == 0
    }

    /// Returns the buffer as a slice.
    pub fn as_slice(&self) -> (r: &[u8])
        ensures
            r@ == self@,
    {
        proof {
            use_type_invariant(self);
        }
        let len = self.0[N - 1] as usize;
        let (data, _) = self.0.as_slice().split_at(len);
        data
    }
}

impl<const N: usize> PartialEq for Buffer<N> {
    /// Two buffers are equal when the bytes in use are.
    fn eq(&self, other: &Self) -> (r: bool) {
        let a = self.as_slice();
        let b = other.as_slice();
        if a.len() != b.len() {
            return false;
        }
        let mut i: usize = 0;
        while i < a.len()
            invariant
                a@ == self@,
                b@ == other@,
                a.len() == b.len(),
                i <= a.len(),
                forall|j: int| 0 <= j < i ==> a@[j] == b@[j],
            decreases a.len() - i,
        {
            if a[i] != b[i] {
                return false;
            }
            i = i + 1;
        }
        proof {
            assert(a@ =~= b@);
        }
        true
    }
}

impl<const N: usize> vstd::std_specs::cmp::PartialEqSpecImpl for Buffer<N> {
    open spec fn obeys_eq_spec() -> bool {
        true
    }

    open spec fn eq_spec(&self, other: &Self) -> bool {
        self@ == other@
    }
}

impl<const N: usize> Eq for Buffer<N> {

}

/// The zigzag image of a signed integer: `0, -1, 1, -2, 2, ...` go to `0, 1, 2, 3, 4, ...`.
pub open spec fn zigzag(v: int) -> nat {
    if v >= 0 {
        (2 * v) as nat
    } else {
        (-2 * v - 1) as nat
    }
}

/// The signed integer whose zigzag image is `u`.
pub open spec fn unzigzag(u: nat) -> int {
    if u % 2 == 0 {
        (u / 2) as int
    } else {
        -((u + 1) / 2) as int
    }
}

/// Zigzag decoding undoes zigzag encoding, on every integer.
pub proof fn lemma_unzigzag_zigzag(v: int)
    ensures
        unzigzag(zigzag(v)) == v,
{
}

/// Zigzag encoding undoes zigzag decoding, on every natural number.
pub proof fn lemma_zigzag_unzigzag(u: nat)
    ensures
        zigzag(unzigzag(u)) == u,
{
}

/// Zigzag encoding interleaves: `k` goes to `2k` and `-k - 1` to `2k + 1`, so `0, -1, 1, -2,
/// 2, ...` go to `0, 1, 2, 3, 4, ...`.
pub proof fn lemma_zigzag_interleaves(k: nat)
    ensures
        zigzag(k as int) == 2 * k,
        zigzag(-(k as int) - 1) == 2 * k + 1,
{
}

/// Zigzag encoding maps the signed integers from `-half` up to `half` (a width's range, `half`
/// being `2^(bits - 1)`) below `2 * half`, the unsigned range of the same width.
pub proof fn lemma_zigzag_range(v: int, half: int)
    requires
        half > 0,
        -half <= v < half,
    ensures
        zigzag(v) < 2 * half,
{
}

/// Zigzag decoding maps the unsigned integers below `2 * half` into the signed range from
/// `-half` up to `half`.
pub proof fn lemma_unzigzag_range(u: nat, half: int)
    requires
        half > 0,
        u < 2 * half,
    ensures
        -half <= unzigzag(u) < half,
{
}

/// Zigzag encode `i8` value.
pub fn zigzag_encode_i8(value: i8) -> (r: u8)
    ensures
        r as nat == zigzag(value as int),
{
    if value >= 0 {
        (value as u8) * 2
    } else {
        (-(value + 1)) as u8 * 2 + 1
    }
}

/// Zigzag decode `i8` value.
pub fn zigzag_decode_i8(value: u8) -> (r: i8)
    ensures
        r as int == unzigzag(value as nat),
{
    let half = (value / 2) as i8;
    if value % 2 == 0 {
        half
    } else {
        -half - 1
    }
}

/// Zigzag encode `i16` value.
pub fn zigzag_encode_i16(value: i16) -> (r: u16)
    ensures
        r as nat == zigzag(value as int),
{
    if value >= 0 {
        (value as u16) * 2
    } else {
        (-(value + 1)) as u16 * 2 + 1
    }
}

/// Zigzag decode `i16` value.
pub fn zigzag_decode_i16(value: u16) -> (r: i16)
    ensures
        r as int == unzigzag(value as nat),
{
    let half = (value / 2) as i16;
    if value % 2 == 0 {
        half
    } else {
        -half - 1
    }
}

/// Zigzag encode `i32` value.
pub fn zigzag_encode_i32(value: i32) -> (r: u32)
    ensures
        r as nat == zigzag(value as int),
{
    if value >= 0 {
        (value as u32) * 2
    } else {
        (-(value + 1)) as u32 * 2 + 1
    }
}

/// Zigzag decode `i32` value.
pub fn zigzag_decode_i32(value: u32) -> (r: i32)
    ensures
        r as int == unzigzag(value as nat),
{
    let half = (value / 2) as i32;
    if value % 2 == 0 {
        half
    } else {
        -half - 1
    }
}

/// Zigzag encode `i64` value.
pub fn zigzag_encode_i64(value: i64) -> (r: u64)
    ensures
        r as nat == zigzag(value as int),
{
    if value >= 0 {
        (value as u64) * 2
    } else {
        (-(value + 1)) as u64 * 2 + 1
    }
}

/// Zigzag decode `i64` value.
pub fn zigzag_decode_i64(value: u64) -> (r: i64)
    ensures
        r as int == unzigzag(value as nat),
{
    let half = (value / 2) as i64;
    if value % 2 == 0 {
        half
    } else {
        -half - 1
    }
}

/// Zigzag encode `i128` value.
pub fn zigzag_encode_i128(value: i128) -> (r: u128)
    ensures
        r as nat == zigzag(value as int),
{
    if value >= 0 {
        (value as u128) * 2
    } else {
        (-(value + 1)) as u128 * 2 + 1
    }
}

/// Zigzag decode `i128` value.
pub fn zigzag_decode_i128(value: u128) -> (r: i128)
    ensures
        r as int == unzigzag(value as nat),
{
    let half = (value / 2) as i128;
    if value % 2 == 0 {
        half
    } else {
        -half - 1
    }
}

} // verus!
