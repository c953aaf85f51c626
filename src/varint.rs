use vstd::prelude::*;

use crate::error::{DecodeError, EncodeError};
use crate::leb128::encoded_into;
use vstd::slice::slice_subrange;

verus! {

/// A type whose values have a variable-length byte encoding.
///
/// Each value has one encoding, `wire()`, of between `MIN_ENCODED_LEN` and
/// `MAX_ENCODED_LEN` bytes; `encode` writes it, `encoded_len` measures it, and `decode`
/// reads it back from the front of a buffer, whatever follows it.
pub trait Varint: Sized {
    /// The minimum number of bytes needed to encode any value of this type.
    const MIN_ENCODED_LEN: usize;

    /// The maximum number of bytes that might be needed to encode any value of this type.
    const MAX_ENCODED_LEN: usize;

    /// The bytes that encode `self`.
    spec fn wire(&self) -> Seq<u8>;

    /// What decoding the front of `buf` gives: the number of bytes read and the value.
    spec fn wire_decode(buf: Seq<u8>) -> Result<(nat, Self), DecodeError>;

    /// Every encoding has a length within the type's bounds, and the lower bound is at least
    /// one byte.
    proof fn lemma_wire_len(&self)
        ensures
            1 <= Self::MIN_ENCODED_LEN,
            Self::MIN_ENCODED_LEN <= self.wire().len() <= Self::MAX_ENCODED_LEN,
    ;

    /// Decoding the encoding of a value gives back the value and the encoding's length,
    /// whatever bytes follow it.
    proof fn lemma_round_trip(&self, rest: Seq<u8>)
        ensures
            Self::wire_decode(self.wire() + rest) == Ok::<(nat, Self), DecodeError>(
                (self.wire().len(), *self),
            ),
    ;

    /// A decode reads at least one byte and no more than the buffer holds.
    proof fn lemma_decode_len(buf: Seq<u8>)
        ensures
            Self::wire_decode(buf) matches Ok((n, _)) ==> 1 <= n <= buf.len(),
    ;

    /// Returns the encoded length of the value.
    fn encoded_len(&self) -> (r: usize)
        ensures
            r == self.wire().len(),
    ;

    /// Encodes the value and writes it to the front of `buf`, returning the number of bytes
    /// written; fails, leaving `buf` as it was, exactly when `buf` is too short.
    fn encode(&self, buf: &mut [u8]) -> (r: Result<usize, EncodeError>)
        ensures
            encoded_into(self.wire(), old(buf)@, final(buf)@, r),
    ;

    /// Decodes a value from the front of `buf`, returning the number of bytes read with it.
    fn decode(buf: &[u8]) -> (r: Result<(usize, Self), DecodeError>)
        ensures
            match r {
                Ok((n, v)) => Self::wire_decode(buf@) == Ok::<(nat, Self), DecodeError>(
                    (n as nat, v),
                ),
                Err(e) => Self::wire_decode(buf@) == Err::<(nat, Self), DecodeError>(e),
            },
    ;
}

/// The encodings of `values`, one after another, with nothing between them.
pub open spec fn wires<V: Varint>(values: Seq<V>) -> Seq<u8>
    decreases values.len(),
{
    if values.len() == 0 {
        Seq::empty()
    } else {
        values[0].wire() + wires(values.drop_first())
    }
}

/// What decoding values one after another until `buf` is used up gives: the number of bytes
/// read and the values. An empty buffer holds no values.
pub open spec fn decode_all<V: Varint>(buf: Seq<u8>) -> Result<(nat, Seq<V>), DecodeError>
    decreases buf.len(),
{
    if buf.len() == 0 {
        Ok((0, Seq::empty()))
    } else {
        match V::wire_decode(buf) {
            // A decode reads at least one byte (`Varint::lemma_decode_len`), so the guard
            // always holds; it makes the recursion visibly shrink.
            Ok((n, v)) => if 1 <= n <= buf.len() {
                match decode_all::<V>(buf.skip(n as int)) {
                    Ok((m, vs)) => Ok((n + m, seq![v] + vs)),
                    Err(e) => Err(e),
                }
            } else {
                Err(DecodeError::Overflow)
            },
            Err(e) => Err(e),
        }
    }
}

/// The result of a decode of the rest of a buffer, after `n` bytes that gave `vs`.
pub open spec fn after_prefix<V>(
    n: nat,
    vs: Seq<V>,
    r: Result<(nat, Seq<V>), DecodeError>,
) -> Result<(nat, Seq<V>), DecodeError> {
    match r {
        Ok((m, ws)) => Ok((n + m, vs + ws)),
        Err(e) => Err(e),
    }
}

/// The encodings of two runs of values, joined, are the encoding of the joined run.
pub proof fn lemma_wires_append<V: Varint>(a: Seq<V>, b: Seq<V>)
    ensures
        wires(a + b) == wires(a) + wires(b),
    decreases a.len(),
{
    if a.len() == 0 {
        assert(a + b =~= b);
        assert(wires(a) + wires(b) =~= wires(b));
    } else {
        lemma_wires_append(a.drop_first(), b);
        assert((a + b).drop_first() =~= a.drop_first() + b);
        assert((a + b)[0] == a[0]);
        assert(wires(a + b) =~= wires(a) + wires(b));
    }
}

/// The encodings of the first `i + 1` values extend those of the first `i` by one.
proof fn lemma_wires_take<V: Varint>(values: Seq<V>, i: int)
    requires
        0 <= i < values.len(),
    ensures
        wires(values.take(i + 1)) == wires(values.take(i)) + values[i].wire(),
        wires(values) == wires(values.take(i + 1)) + wires(values.skip(i + 1)),
{
    let one = seq![values[i]];
    assert(values.take(i + 1) =~= values.take(i) + one);
    lemma_wires_append(values.take(i), one);
    assert(one.drop_first() =~= Seq::<V>::empty());
    assert(wires(one.drop_first()) == Seq::<u8>::empty());
    assert(wires(one) =~= values[i].wire());
    assert(values =~= values.take(i + 1) + values.skip(i + 1));
    lemma_wires_append(values.take(i + 1), values.skip(i + 1));
}

/// Decoding the encodings of a run of values, one after another, gives back the run and
/// reads every byte.
pub proof fn lemma_decode_all_wires<V: Varint>(values: Seq<V>)
    ensures
        decode_all::<V>(wires(values)) == Ok::<(nat, Seq<V>), DecodeError>(
            (wires(values).len(), values),
        ),
    decreases values.len(),
{
    if values.len() == 0 {
        assert(wires(values) =~= Seq::<u8>::empty());
        assert(values =~= Seq::<V>::empty());
    } else {
        let v = values[0];
        let rest = values.drop_first();
        lemma_decode_all_wires(rest);
        v.lemma_round_trip(wires(rest));
        v.lemma_wire_len();
        let buf = wires(values);
        assert(buf == v.wire() + wires(rest));
        assert(buf.skip(v.wire().len() as int) =~= wires(rest));
        assert(seq![v] + rest =~= values);
    }
}

/// Returns the total number of bytes needed to encode a sequence of values.
pub fn encoded_sequence_len<V: Varint>(sequence: &[V]) -> (r: usize)
    requires
        wires(sequence@).len() <= usize::MAX,
    ensures
        r == wires(sequence@).len(),
{
    let mut total: usize = 0;
    let mut i: usize = 0;
    proof {
        assert(sequence@.take(0) =~= Seq::<V>::empty());
    }
    while i < sequence.len()
        invariant
            i <= sequence.len(),
            wires(sequence@).len() <= usize::MAX,
            total == wires(sequence@.take(i as int)).len(),
        decreases sequence.len() - i,
    {
        proof {
            lemma_wires_take(sequence@, i as int);
        }
        total = total + sequence[i].encoded_len();
        i = i + 1;
    }
    proof {
        assert(sequence@.take(i as int) =~= sequence@);
    }
    total
}

/// Encodes a sequence of values, one after another with nothing between them, and writes
/// them to the front of `buf`; returns the total number of bytes written. Fails, leaving
/// `buf` as it was, exactly when `buf` is shorter than the whole encoding.
pub fn encode_sequence<V: Varint>(sequence: &[V], buf: &mut [u8]) -> (r: Result<usize, EncodeError>)
    requires
        wires(sequence@).len() <= usize::MAX,
    ensures
        encoded_into(wires(sequence@), old(buf)@, final(buf)@, r),
{
    let total = encoded_sequence_len(sequence);
    if buf.len() < total {
        return Err(EncodeError::insufficient_space(total, buf.len()));
    }
    let ghost all = wires(sequence@);
    let mut written: usize = 0;
    let mut i: usize = 0;
    proof {
        assert(sequence@.take(0) =~= Seq::<V>::empty());
        assert(buf@.take(0) =~= Seq::<u8>::empty());
    }
    while i < sequence.len()
        invariant
            i <= sequence.len(),
            all == wires(sequence@),
            total == all.len() <= buf.len(),
            buf.len() == old(buf).len(),
            written == wires(sequence@.take(i as int)).len(),
            buf@.take(written as int) == wires(sequence@.take(i as int)),
            buf@.skip(total as int) == old(buf)@.skip(total as int),
        decreases sequence.len() - i,
    {
        proof {
            lemma_wires_take(sequence@, i as int);
        }
        let ghost before = buf@;
        let (_, tail) = buf.split_at_mut(written);
        let n = match sequence[i].encode(tail) {
            Ok(n) => n,
            Err(e) => return Err(e),
        };
        proof {
            let w = sequence@[i as int].wire();
            assert(buf@.take(written as int) =~= before.take(written as int));
            assert(buf@.take(written + n) =~= wires(sequence@.take(i as int)) + w);
            assert forall|j: int| written + n <= j < buf.len() implies buf@[j] == before[j] by {
                assert(buf@[j] == tail@[j - written]);
                assert(tail@.skip(n as int)[j - written - n] == tail@[j - written]);
            }
            assert(buf@.skip(total as int) =~= before.skip(total as int));
        }
        written = written + n;
        i = i + 1;
    }
    proof {
        assert(sequence@.take(i as int) =~= sequence@);
        assert(buf@.skip(written as int) =~= old(buf)@.skip(written as int));
    }
    Ok(written)
}

/// Decodes values one after another until `buf` is used up; returns the number of bytes read
/// and the values.
pub fn decode_sequence<V: Varint>(buf: &[u8]) -> (r: Result<(usize, Vec<V>), DecodeError>)
    ensures
        match r {
            Ok((n, vs)) => decode_all::<V>(buf@) == Ok::<(nat, Seq<V>), DecodeError>(
                (n as nat, vs@),
            ),
            Err(e) => decode_all::<V>(buf@) == Err::<(nat, Seq<V>), DecodeError>(e),
        },
{
    let mut readed: usize = 0;
    let mut out: Vec<V> = Vec::new();
    proof {
        assert(buf@.skip(0) =~= buf@);
        assert(decode_all::<V>(buf@) == after_prefix(0, out@, decode_all::<V>(buf@.skip(0))))
            by {
            if let Ok((m, ws)) = decode_all::<V>(buf@) {
                assert(out@ + ws =~= ws);
            }
        }
    }
    while readed < buf.len()
        invariant
            readed <= buf.len(),
            decode_all::<V>(buf@) == after_prefix(
                readed as nat,
                out@,
                decode_all::<V>(buf@.skip(readed as int)),
            ),
        decreases buf.len() - readed,
    {
        let rest = slice_subrange(buf, readed, buf.len());
        proof {
            assert(rest@ =~= buf@.skip(readed as int));
        }
        match V::decode(rest) {
            Ok((n, v)) => {
                proof {
                    V::lemma_decode_len(rest@);
                    assert(rest@.skip(n as int) =~= buf@.skip(readed + n));
                    if let Ok((m, ws)) = decode_all::<V>(buf@.skip(readed + n)) {
                        assert(out@.push(v) + ws =~= out@ + (seq![v] + ws));
                    }
                }
                readed = readed + n;
                out.push(v);
            },
            Err(e) => {
                return Err(e);
            },
        }
    }
    proof {
        assert(buf@.skip(readed as int) =~= Seq::<u8>::empty());
        assert(out@ + Seq::<V>::empty() =~= out@);
    }
    Ok((readed, out))
}

/// The encodings of map `entries`, one after another: each key followed by its value, with
/// nothing between them.
pub open spec fn entry_wires<K: Varint, V: Varint>(entries: Seq<(K, V)>) -> Seq<u8>
    decreases entries.len(),
{
    if entries.len() == 0 {
        Seq::empty()
    } else {
        entries[0].0.wire() + entries[0].1.wire() + entry_wires(entries.drop_first())
    }
}

/// What decoding one key and then its value from the front of `buf` gives.
pub open spec fn decode_entry<K: Varint, V: Varint>(buf: Seq<u8>) -> Result<
    (nat, (K, V)),
    DecodeError,
> {
    match K::wire_decode(buf) {
        Ok((n, k)) => match V::wire_decode(buf.skip(n as int)) {
            Ok((m, v)) => Ok((n + m, (k, v))),
            Err(e) => Err(e),
        },
        Err(e) => Err(e),
    }
}

/// What decoding entries one after another until `buf` is used up gives: the number of
/// bytes read and the entries, in the order met.
pub open spec fn decode_all_entries<K: Varint, V: Varint>(buf: Seq<u8>) -> Result<
    (nat, Seq<(K, V)>),
    DecodeError,
>
    decreases buf.len(),
{
    if buf.len() == 0 {
        Ok((0, Seq::empty()))
    } else {
        match decode_entry::<K, V>(buf) {
            // An entry decode reads at least one byte (`lemma_decode_entry_len`), so the
            // guard always holds; it makes the recursion visibly shrink.
            Ok((n, e)) => if 1 <= n <= buf.len() {
                match decode_all_entries::<K, V>(buf.skip(n as int)) {
                    Ok((m, es)) => Ok((n + m, seq![e] + es)),
                    Err(err) => Err(err),
                }
            } else {
                Err(DecodeError::Overflow)
            },
            Err(err) => Err(err),
        }
    }
}

/// An entry decode reads at least one byte and no more than the buffer holds.
pub proof fn lemma_decode_entry_len<K: Varint, V: Varint>(buf: Seq<u8>)
    ensures
        decode_entry::<K, V>(buf) matches Ok((n, _)) ==> 1 <= n <= buf.len(),
{
    K::lemma_decode_len(buf);
    if let Ok((n, k)) = K::wire_decode(buf) {
        V::lemma_decode_len(buf.skip(n as int));
    }
}

/// Decoding a key and value from their encodings gives them back, whatever follows.
pub proof fn lemma_decode_entry_round_trip<K: Varint, V: Varint>(k: K, v: V, rest: Seq<u8>)
    ensures
        decode_entry::<K, V>(k.wire() + v.wire() + rest) == Ok::<(nat, (K, V)), DecodeError>(
            ((k.wire() + v.wire()).len(), (k, v)),
        ),
{
    let kw = k.wire();
    let vw = v.wire();
    assert(kw + vw + rest =~= kw + (vw + rest));
    k.lemma_round_trip(vw + rest);
    assert((kw + (vw + rest)).skip(kw.len() as int) =~= vw + rest);
    v.lemma_round_trip(rest);
}

/// The encodings of two runs of entries, joined, are the encoding of the joined run.
pub proof fn lemma_entry_wires_append<K: Varint, V: Varint>(a: Seq<(K, V)>, b: Seq<(K, V)>)
    ensures
        entry_wires(a + b) == entry_wires(a) + entry_wires(b),
    decreases a.len(),
{
    if a.len() == 0 {
        assert(a + b =~= b);
        assert(entry_wires(a) + entry_wires(b) =~= entry_wires(b));
    } else {
        lemma_entry_wires_append(a.drop_first(), b);
        assert((a + b).drop_first() =~= a.drop_first() + b);
        assert((a + b)[0] == a[0]);
        assert(entry_wires(a + b) =~= entry_wires(a) + entry_wires(b));
    }
}

/// The encodings of the first `i + 1` entries extend those of the first `i` by one.
proof fn lemma_entry_wires_take<K: Varint, V: Varint>(entries: Seq<(K, V)>, i: int)
    requires
        0 <= i < entries.len(),
    ensures
        entry_wires(entries.take(i + 1)) == entry_wires(entries.take(i)) + entries[i].0.wire()
            + entries[i].1.wire(),
        entry_wires(entries) == entry_wires(entries.take(i + 1)) + entry_wires(
            entries.skip(i + 1),
        ),
{
    let one = seq![entries[i]];
    assert(entries.take(i + 1) =~= entries.take(i) + one);
    lemma_entry_wires_append(entries.take(i), one);
    assert(one.drop_first() =~= Seq::<(K, V)>::empty());
    assert(entry_wires(one.drop_first()) == Seq::<u8>::empty());
    assert(entry_wires(one) =~= entries[i].0.wire() + entries[i].1.wire());
    assert(entries.take(i) + one =~= entries.take(i + 1));
    assert(entry_wires(entries.take(i)) + (entries[i].0.wire() + entries[i].1.wire())
        =~= entry_wires(entries.take(i)) + entries[i].0.wire() + entries[i].1.wire());
    assert(entries =~= entries.take(i + 1) + entries.skip(i + 1));
    lemma_entry_wires_append(entries.take(i + 1), entries.skip(i + 1));
}

/// Decoding the encodings of a run of entries gives back the run and reads every byte.
pub proof fn lemma_decode_all_entry_wires<K: Varint, V: Varint>(entries: Seq<(K, V)>)
    ensures
        decode_all_entries::<K, V>(entry_wires(entries)) == Ok::<
            (nat, Seq<(K, V)>),
            DecodeError,
        >((entry_wires(entries).len(), entries)),
    decreases entries.len(),
{
    if entries.len() == 0 {
        assert(entry_wires(entries) =~= Seq::<u8>::empty());
        assert(entries =~= Seq::<(K, V)>::empty());
    } else {
        let (k, v) = entries[0];
        let rest = entries.drop_first();
        lemma_decode_all_entry_wires(rest);
        lemma_decode_entry_round_trip(k, v, entry_wires(rest));
        k.lemma_wire_len();
        let buf = entry_wires(entries);
        let w = k.wire() + v.wire();
        assert(buf == w + entry_wires(rest));
        assert(buf.skip(w.len() as int) =~= entry_wires(rest));
        assert(seq![(k, v)] + rest =~= entries);
    }
}

/// Returns the total number of bytes needed to encode the map entries.
pub fn encoded_map_len<K: Varint, V: Varint>(map: &[(K, V)]) -> (r: usize)
    requires
        entry_wires(map@).len() <= usize::MAX,
    ensures
        r == entry_wires(map@).len(),
{
    let mut total: usize = 0;
    let mut i: usize = 0;
    proof {
        assert(map@.take(0) =~= Seq::<(K, V)>::empty());
    }
    while i < map.len()
        invariant
            i <= map.len(),
            entry_wires(map@).len() <= usize::MAX,
            total == entry_wires(map@.take(i as int)).len(),
        decreases map.len() - i,
    {
        proof {
            lemma_entry_wires_take(map@, i as int);
        }
        let (key, value) = &map[i];
        total = total + key.encoded_len();
        total = total + value.encoded_len();
        i = i + 1;
    }
    proof {
        assert(map@.take(i as int) =~= map@);
    }
    total
}

/// Encodes map entries, each key followed by its value with nothing between, and writes them
/// to the front of `buf`; returns the total number of bytes written. Fails, leaving `buf` as
/// it was, exactly when `buf` is shorter than the whole encoding.
pub fn encode_map<K: Varint, V: Varint>(map: &[(K, V)], buf: &mut [u8]) -> (r: Result<
    usize,
    EncodeError,
>)
    requires
        entry_wires(map@).len() <= usize::MAX,
    ensures
        encoded_into(entry_wires(map@), old(buf)@, final(buf)@, r),
{
    let total = encoded_map_len(map);
    if buf.len() < total {
        return Err(EncodeError::insufficient_space(total, buf.len()));
    }
    let ghost all = entry_wires(map@);
    let mut written: usize = 0;
    let mut i: usize = 0;
    proof {
        assert(map@.take(0) =~= Seq::<(K, V)>::empty());
        assert(buf@.take(0) =~= Seq::<u8>::empty());
    }
    while i < map.len()
        invariant
            i <= map.len(),
            all == entry_wires(map@),
            total == all.len() <= buf.len(),
            buf.len() == old(buf).len(),
            written == entry_wires(map@.take(i as int)).len(),
            buf@.take(written as int) == entry_wires(map@.take(i as int)),
            buf@.skip(total as int) == old(buf)@.skip(total as int),
        decreases map.len() - i,
    {
        proof {
            lemma_entry_wires_take(map@, i as int);
        }
        let (key, value) = &map[i];
        let ghost before = buf@;
        let (_, tail) = buf.split_at_mut(written);
        let n = match key.encode(tail) {
            Ok(n) => n,
            Err(e) => return Err(e),
        };
        proof {
            assert forall|j: int| written + n <= j < buf.len() implies buf@[j] == before[j] by {
                assert(buf@[j] == tail@[j - written]);
                assert(tail@.skip(n as int)[j - written - n] == tail@[j - written]);
            }
            assert(buf@.take(written as int) =~= before.take(written as int));
            assert(buf@.take(written + n) =~= entry_wires(map@.take(i as int)) + key.wire());
        }
        written = written + n;
        let ghost middle = buf@;
        let (_, tail) = buf.split_at_mut(written);
        let m = match value.encode(tail) {
            Ok(m) => m,
            Err(e) => return Err(e),
        };
        proof {
            assert forall|j: int| written + m <= j < buf.len() implies buf@[j] == before[j] by {
                assert(buf@[j] == tail@[j - written]);
                assert(tail@.skip(m as int)[j - written - m] == tail@[j - written]);
            }
            assert(buf@.take(written as int) =~= middle.take(written as int));
            assert(buf@.take(written + m) =~= entry_wires(map@.take(i as int)) + key.wire()
                + value.wire());
            assert(buf@.skip(total as int) =~= before.skip(total as int));
        }
        written = written + m;
        i = i + 1;
    }
    proof {
        assert(map@.take(i as int) =~= map@);
        assert(buf@.skip(written as int) =~= old(buf)@.skip(written as int));
    }
    Ok(written)
}

/// Decodes one key and then its value from the front of `buf`; returns the number of bytes
/// read and the entry.
fn decode_entry_from<K: Varint, V: Varint>(buf: &[u8]) -> (r: Result<(usize, (K, V)), DecodeError>)
    ensures
        match r {
            Ok((n, e)) => decode_entry::<K, V>(buf@) == Ok::<(nat, (K, V)), DecodeError>(
                (n as nat, e),
            ),
            Err(e) => decode_entry::<K, V>(buf@) == Err::<(nat, (K, V)), DecodeError>(e),
        },
{
    match K::decode(buf) {
        Ok((n, k)) => {
            proof {
                K::lemma_decode_len(buf@);
            }
            let rest = slice_subrange(buf, n, buf.len());
            proof {
                assert(rest@ =~= buf@.skip(n as int));
            }
            match V::decode(rest) {
                Ok((m, v)) => {
                    proof {
                        V::lemma_decode_len(rest@);
                    }
                    Ok((n + m, (k, v)))
                },
                Err(e) => Err(e),
            }
        },
        Err(e) => Err(e),
    }
}

/// Decodes entries one after another until `buf` is used up; returns the number of bytes
/// read and the entries, in the order met.
pub fn decode_map<K: Varint, V: Varint>(buf: &[u8]) -> (r: Result<(usize, Vec<(K, V)>), DecodeError>)
    ensures
        match r {
            Ok((n, es)) => decode_all_entries::<K, V>(buf@) == Ok::<
                (nat, Seq<(K, V)>),
                DecodeError,
            >((n as nat, es@)),
            Err(e) => decode_all_entries::<K, V>(buf@) == Err::<(nat, Seq<(K, V)>), DecodeError>(
                e,
            ),
        },
{
    let mut readed: usize = 0;
    let mut out: Vec<(K, V)> = Vec::new();
    proof {
        assert(buf@.skip(0) =~= buf@);
        assert(decode_all_entries::<K, V>(buf@) == after_prefix(
            0,
            out@,
            decode_all_entries::<K, V>(buf@.skip(0)),
        )) by {
            if let Ok((m, ws)) = decode_all_entries::<K, V>(buf@) {
                assert(out@ + ws =~= ws);
            }
        }
    }
    while readed < buf.len()
        invariant
            readed <= buf.len(),
            decode_all_entries::<K, V>(buf@) == after_prefix(
                readed as nat,
                out@,
                decode_all_entries::<K, V>(buf@.skip(readed as int)),
            ),
        decreases buf.len() - readed,
    {
        let rest = slice_subrange(buf, readed, buf.len());
        proof {
            assert(rest@ =~= buf@.skip(readed as int));
        }
        match decode_entry_from::<K, V>(rest) {
            Ok((n, e)) => {
                proof {
                    lemma_decode_entry_len::<K, V>(rest@);
                    assert(rest@.skip(n as int) =~= buf@.skip(readed + n));
                    if let Ok((m, ws)) = decode_all_entries::<K, V>(buf@.skip(readed + n)) {
                        assert(out@.push(e) + ws =~= out@ + (seq![e] + ws));
                    }
                }
                readed = readed + n;
                out.push(e);
            },
            Err(e) => {
                return Err(e);
            },
        }
    }
    proof {
        assert(buf@.skip(readed as int) =~= Seq::<u8>::empty());
        assert(out@ + Seq::<(K, V)>::empty() =~= out@);
    }
    Ok((readed, out))
}

/// The length of the varint at the front of `buf`, found from the continuation bits alone,
/// scanning from byte `i`: one past the first byte whose high bit is clear.
pub open spec fn varint_end(buf: Seq<u8>, i: nat) -> Option<nat>
    decreases buf.len() - i,
{
    if i >= buf.len() {
        None
    } else if buf[i as int] < 128 {
        Some(i + 1)
    } else {
        varint_end(buf, i + 1)
    }
}

/// Calculates the number of bytes occupied by the varint at the front of `buf`, without
/// decoding it. Fails with `DecodeError::InsufficientData` when no byte of `buf` ends a
/// varint, an empty `buf` included.
pub fn consume_varint(buf: &[u8]) -> (r: Result<usize, DecodeError>)
    ensures
        match varint_end(buf@, 0) {
            Some(n) => r == Ok::<usize, DecodeError>(n as usize),
            None => r == Err::<usize, DecodeError>(
                DecodeError::InsufficientData { available: buf.len() },
            ),
        },
{
    let mut idx: usize = 0;
    while idx < buf.len()
        invariant
            idx <= buf.len(),
            varint_end(buf@, 0) == varint_end(buf@, idx as nat),
        decreases buf.len() - idx,
    {
        if buf[idx] < 128 {
            return Ok(idx + 1);
        }
        idx = idx + 1;
    }
    Err(DecodeError::InsufficientData { available: buf.len() })
}

/// Decodes a sequence of values one at a time from a buffer.
#[derive(Debug)]
pub struct SequenceDecoder<'a, V> {
    buf: &'a [u8],
    offset: usize,
    _m: core::marker::PhantomData<V>,
}

impl<'a, V> SequenceDecoder<'a, V> {
    #[verifier::type_invariant]
    spec fn within(self) -> bool {
        self.offset <= self.buf.len()
    }

    /// The buffer being decoded.
    pub closed spec fn source(&self) -> Seq<u8> {
        self.buf@
    }

    /// How many bytes of the buffer have been decoded.
    pub closed spec fn spec_position(&self) -> nat {
        self.offset as nat
    }

}

impl<'a, V: Varint> SequenceDecoder<'a, V> {
    fn new(buf: &'a [u8]) -> (r: Self)
        ensures
            r.source() == buf@,
            r.spec_position() == 0,
    {
        SequenceDecoder { buf, offset: 0, _m: core::marker::PhantomData }
    }

    /// Returns the current position of the buffer.
    pub fn position(&self) -> (r: usize)
        ensures
            r == self.spec_position(),
            r <= self.source().len(),
    {
        proof {
            use_type_invariant(self);
        }
        self.offset
    }

    /// Decodes the next value, returning the bytes it took with it, or `None` once the buffer
    /// is used up. After an error the position stays where it was.
    pub fn next(&mut self) -> (r: Option<Result<(usize, V), DecodeError>>)
        ensures
            final(self).source() == old(self).source(),
            old(self).spec_position() >= old(self).source().len() ==> r is None
                && final(self).spec_position() == old(self).spec_position(),
            old(self).spec_position() < old(self).source().len() ==> match V::wire_decode(
                old(self).source().skip(old(self).spec_position() as int),
            ) {
                Ok((n, v)) => r == Some(Ok::<(usize, V), DecodeError>((n as usize, v)))
                    && final(self).spec_position() == old(self).spec_position() + n,
                Err(e) => r == Some(Err::<(usize, V), DecodeError>(e))
                    && final(self).spec_position() == old(self).spec_position(),
            },
    {
        proof {
            use_type_invariant(&*self);
        }
        if self.offset < self.buf.len() {
            let rest = slice_subrange(self.buf, self.offset, self.buf.len());
            proof {
                assert(rest@ =~= self.buf@.skip(self.offset as int));
            }
            match V::decode(rest) {
                Ok((n, v)) => {
                    proof {
                        V::lemma_decode_len(rest@);
                    }
                    self.offset = self.offset + n;
                    Some(Ok((n, v)))
                },
                Err(e) => Some(Err(e)),
            }
        } else {
            None
        }
    }
}

impl<'a, V> Clone for SequenceDecoder<'a, V> {
    fn clone(&self) -> (r: Self)
        ensures
            r == *self,
    {
        proof {
            use_type_invariant(self);
        }
        SequenceDecoder { buf: self.buf, offset: self.offset, _m: core::marker::PhantomData }
    }
}

impl<'a, V> Copy for SequenceDecoder<'a, V> {

}

/// Returns a decoder that reads values of type `V` one at a time from `buf`.
pub fn sequence_decoder<V: Varint>(buf: &[u8]) -> (r: SequenceDecoder<'_, V>)
    ensures
        r.source() == buf@,
        r.spec_position() == 0,
{
    SequenceDecoder::new(buf)
}

/// Decodes map entries one at a time from a buffer.
#[derive(Debug)]
pub struct MapDecoder<'a, K, V> {
    buf: &'a [u8],
    offset: usize,
    _m: core::marker::PhantomData<(K, V)>,
}

impl<'a, K, V> MapDecoder<'a, K, V> {
    #[verifier::type_invariant]
    spec fn within(self) -> bool {
        self.offset <= self.buf.len()
    }

    /// The buffer being decoded.
    pub closed spec fn source(&self) -> Seq<u8> {
        self.buf@
    }

    /// How many bytes of the buffer have been decoded.
    pub closed spec fn spec_position(&self) -> nat {
        self.offset as nat
    }

}

impl<'a, K: Varint, V: Varint> MapDecoder<'a, K, V> {
    fn new(buf: &'a [u8]) -> (r: Self)
        ensures
            r.source() == buf@,
            r.spec_position() == 0,
    {
        MapDecoder { buf, offset: 0, _m: core::marker::PhantomData }
    }

    /// Returns the current position of the buffer.
    pub fn position(&self) -> (r: usize)
        ensures
            r == self.spec_position(),
            r <= self.source().len(),
    {
        proof {
            use_type_invariant(self);
        }
        self.offset
    }

    /// Decodes the next entry, returning the bytes it took with it, or `None` once the buffer
    /// is used up. After an error the position stays where it was.
    pub fn next(&mut self) -> (r: Option<Result<(usize, (K, V)), DecodeError>>)
        ensures
            final(self).source() == old(self).source(),
            old(self).spec_position() >= old(self).source().len() ==> r is None
                && final(self).spec_position() == old(self).spec_position(),
            old(self).spec_position() < old(self).source().len() ==> match decode_entry::<K, V>(
                old(self).source().skip(old(self).spec_position() as int),
            ) {
                Ok((n, e)) => r == Some(Ok::<(usize, (K, V)), DecodeError>((n as usize, e)))
                    && final(self).spec_position() == old(self).spec_position() + n,
                Err(e) => r == Some(Err::<(usize, (K, V)), DecodeError>(e))
                    && final(self).spec_position() == old(self).spec_position(),
            },
    {
        proof {
            use_type_invariant(&*self);
        }
        if self.offset < self.buf.len() {
            let rest = slice_subrange(self.buf, self.offset, self.buf.len());
            proof {
                assert(rest@ =~= self.buf@.skip(self.offset as int));
            }
            match decode_entry_from::<K, V>(rest) {
                Ok((n, e)) => {
                    proof {
                        lemma_decode_entry_len::<K, V>(rest@);
                    }
                    self.offset = self.offset + n;
                    Some(Ok((n, e)))
                },
                Err(e) => Some(Err(e)),
            }
        } else {
            None
        }
    }
}

impl<'a, K, V> Clone for MapDecoder<'a, K, V> {
    fn clone(&self) -> (r: Self)
        ensures
            r == *self,
    {
        proof {
            use_type_invariant(self);
        }
        MapDecoder { buf: self.buf, offset: self.offset, _m: core::marker::PhantomData }
    }
}

impl<'a, K, V> Copy for MapDecoder<'a, K, V> {

}

/// Returns a decoder that reads entries of keys `K` and values `V` one at a time from `buf`.
pub fn map_decoder<K: Varint, V: Varint>(buf: &[u8]) -> (r: MapDecoder<'_, K, V>)
    ensures
        r.source() == buf@,
        r.spec_position() == 0,
{
    MapDecoder::new(buf)
}

} // verus!
