//! What reading back an encoding gives.
use vstd::prelude::*;
use crate::big_endian::{be_bytes, lemma_be_roundtrip, lemma_pow256_values, lemma_signed_roundtrip, lemma_usize_width, to_unsigned, usize_width};
use crate::decode::{decode_all, Decode};
use crate::model::models;
use crate::entries::{distinct_keys, entries_to_map};
use std::collections::HashMap;
use std::hash::Hash;
use std::rc::Rc;
use crate::encode::{after_length, length_prefixed, encodes_all, lemma_encodes_all_push, Encode};
use vstd::utf8::{encode_utf8, encode_utf8_decode_utf8, encode_utf8_valid_utf8};

verus! {

/// A type that can be both written and read back.
pub trait RoundTrip: Encode + Decode {
    /// Decoding an encoding of a value, whatever bytes follow it, gives the
    /// value back and takes exactly the bytes of the encoding.
    proof fn lemma_roundtrip(m: Self::M, bytes: Seq<u8>, rest: Seq<u8>)
        requires
            Self::spec_encoding(m, bytes),
        ensures
            Self::spec_decode(bytes + rest) == Some((m, bytes.len())),
    ;
}

impl RoundTrip for u8 {
    proof fn lemma_roundtrip(m: u8, bytes: Seq<u8>, rest: Seq<u8>) {
        lemma_pow256_values();
        lemma_be_roundtrip(m as nat, 1);
        assert((bytes + rest).take(1 as int) =~= bytes);
    }
}

impl RoundTrip for u16 {
    proof fn lemma_roundtrip(m: u16, bytes: Seq<u8>, rest: Seq<u8>) {
        lemma_pow256_values();
        lemma_be_roundtrip(m as nat, 2);
        assert((bytes + rest).take(2 as int) =~= bytes);
    }
}

impl RoundTrip for u32 {
    proof fn lemma_roundtrip(m: u32, bytes: Seq<u8>, rest: Seq<u8>) {
        lemma_pow256_values();
        lemma_be_roundtrip(m as nat, 4);
        assert((bytes + rest).take(4 as int) =~= bytes);
    }
}

impl RoundTrip for u64 {
    proof fn lemma_roundtrip(m: u64, bytes: Seq<u8>, rest: Seq<u8>) {
        lemma_pow256_values();
        lemma_be_roundtrip(m as nat, 8);
        assert((bytes + rest).take(8 as int) =~= bytes);
    }
}

impl RoundTrip for u128 {
    proof fn lemma_roundtrip(m: u128, bytes: Seq<u8>, rest: Seq<u8>) {
        lemma_pow256_values();
        lemma_be_roundtrip(m as nat, 16);
        assert((bytes + rest).take(16 as int) =~= bytes);
    }
}

impl RoundTrip for usize {
    proof fn lemma_roundtrip(m: usize, bytes: Seq<u8>, rest: Seq<u8>) {
        lemma_usize_width();
        lemma_be_roundtrip(m as nat, usize_width());
        assert((bytes + rest).take(usize_width() as int) =~= bytes);
    }
}

impl RoundTrip for i8 {
    proof fn lemma_roundtrip(m: i8, bytes: Seq<u8>, rest: Seq<u8>) {
        lemma_pow256_values();
        lemma_signed_roundtrip(m as int, 1);
        lemma_be_roundtrip(to_unsigned(m as int, 1), 1);
        assert((bytes + rest).take(1 as int) =~= bytes);
    }
}

impl RoundTrip for i16 {
    proof fn lemma_roundtrip(m: i16, bytes: Seq<u8>, rest: Seq<u8>) {
        lemma_pow256_values();
        lemma_signed_roundtrip(m as int, 2);
        lemma_be_roundtrip(to_unsigned(m as int, 2), 2);
        assert((bytes + rest).take(2 as int) =~= bytes);
    }
}

impl RoundTrip for i32 {
    proof fn lemma_roundtrip(m: i32, bytes: Seq<u8>, rest: Seq<u8>) {
        lemma_pow256_values();
        lemma_signed_roundtrip(m as int, 4);
        lemma_be_roundtrip(to_unsigned(m as int, 4), 4);
        assert((bytes + rest).take(4 as int) =~= bytes);
    }
}

impl RoundTrip for i64 {
    proof fn lemma_roundtrip(m: i64, bytes: Seq<u8>, rest: Seq<u8>) {
        lemma_pow256_values();
        lemma_signed_roundtrip(m as int, 8);
        lemma_be_roundtrip(to_unsigned(m as int, 8), 8);
        assert((bytes + rest).take(8 as int) =~= bytes);
    }
}

impl RoundTrip for i128 {
    proof fn lemma_roundtrip(m: i128, bytes: Seq<u8>, rest: Seq<u8>) {
        lemma_pow256_values();
        lemma_signed_roundtrip(m as int, 16);
        lemma_be_roundtrip(to_unsigned(m as int, 16), 16);
        assert((bytes + rest).take(16 as int) =~= bytes);
    }
}

impl RoundTrip for isize {
    proof fn lemma_roundtrip(m: isize, bytes: Seq<u8>, rest: Seq<u8>) {
        lemma_usize_width();
        lemma_signed_roundtrip(m as int, usize_width());
        lemma_be_roundtrip(to_unsigned(m as int, usize_width()), usize_width());
        assert((bytes + rest).take(usize_width() as int) =~= bytes);
    }
}


impl RoundTrip for bool {
    proof fn lemma_roundtrip(m: bool, bytes: Seq<u8>, rest: Seq<u8>) {
        assert((bytes + rest)[0] == bytes[0]);
    }
}

impl<T: RoundTrip> RoundTrip for Option<T> {
    proof fn lemma_roundtrip(m: Option<T::M>, bytes: Seq<u8>, rest: Seq<u8>) {
        assert((bytes + rest)[0] == bytes[0]);
        if let Some(v) = m {
            assert((bytes + rest).skip(1) =~= bytes.drop_first() + rest);
            T::lemma_roundtrip(v, bytes.drop_first(), rest);
        }
    }
}

/// Decoding the encodings of several values, whatever bytes follow them,
/// gives the values back and takes exactly their bytes.
pub proof fn lemma_decode_all_roundtrip<T: RoundTrip>(ms: Seq<T::M>, bytes: Seq<u8>, rest: Seq<u8>)
    requires
        encodes_all::<T>(ms, bytes),
    ensures
        decode_all::<T>(bytes + rest, ms.len()) == Some((ms, bytes.len())),
    decreases ms.len(),
{
    if ms.len() == 0 {
        assert(ms =~= Seq::<T::M>::empty());
    } else {
        let k = choose|k: int|
            0 <= k <= bytes.len() && encodes_all::<T>(ms.drop_last(), bytes.take(k))
                && #[trigger] T::spec_encoding(ms.last(), bytes.skip(k));
        lemma_decode_all_roundtrip::<T>(ms.drop_last(), bytes.take(k), bytes.skip(k) + rest);
        assert(bytes.take(k) + (bytes.skip(k) + rest) =~= bytes + rest);
        assert((bytes + rest).skip(k) =~= bytes.skip(k) + rest);
        T::lemma_roundtrip(ms.last(), bytes.skip(k), rest);
        assert(ms.drop_last().push(ms.last()) =~= ms);
    }
}

/// The length that starts an encoding reads back as itself, and the rest
/// of the bytes follow it.
proof fn lemma_length_roundtrip(len: nat, bytes: Seq<u8>, rest: Seq<u8>)
    requires
        len <= usize::MAX,
        bytes.len() >= usize_width(),
        bytes.take(usize_width() as int) == be_bytes(len, usize_width()),
    ensures
        usize::spec_decode(bytes + rest) == Some((len as usize, usize_width())),
        (bytes + rest).skip(usize_width() as int) == after_length(bytes) + rest,
{
    lemma_usize_width();
    lemma_be_roundtrip(len, usize_width());
    assert((bytes + rest).take(usize_width() as int) =~= bytes.take(usize_width() as int));
    assert((bytes + rest).skip(usize_width() as int) =~= after_length(bytes) + rest);
}

impl<T: RoundTrip> RoundTrip for Vec<T> {
    proof fn lemma_roundtrip(m: Seq<T::M>, bytes: Seq<u8>, rest: Seq<u8>) {
        lemma_length_roundtrip(m.len(), bytes, rest);
        lemma_decode_all_roundtrip::<T>(m, after_length(bytes), rest);
    }
}

impl<K: RoundTrip + Eq + Hash, V: RoundTrip> RoundTrip for HashMap<K, V> {
    proof fn lemma_roundtrip(m: Map<K::M, V::M>, bytes: Seq<u8>, rest: Seq<u8>) {
        let entries = choose|entries: Seq<(K::M, V::M)>|
            {
                &&& distinct_keys(entries)
                &&& #[trigger] entries_to_map(entries) == m
                &&& length_prefixed(entries.len(), bytes)
                &&& encodes_all::<(K, V)>(entries, after_length(bytes))
            };
        lemma_length_roundtrip(entries.len(), bytes, rest);
        lemma_decode_all_roundtrip::<(K, V)>(entries, after_length(bytes), rest);
    }
}

/// Every byte string is the encodings of its own bytes, one after the other.
pub proof fn lemma_bytes_encode_themselves(s: Seq<u8>)
    ensures
        encodes_all::<u8>(s, s),
    decreases s.len(),
{
    if s.len() > 0 {
        lemma_bytes_encode_themselves(s.drop_last());
        lemma_pow256_values();
        lemma_be_roundtrip(s.last() as nat, 1);
        reveal_with_fuel(be_bytes, 2);
        assert(seq![s.last()] =~= be_bytes(s.last() as nat, 1));
        lemma_encodes_all_push::<u8>(s.drop_last(), s.drop_last(), s.last(), seq![s.last()]);
        assert(s.drop_last().push(s.last()) =~= s);
        assert(s.drop_last() + seq![s.last()] =~= s);
    }
}

impl RoundTrip for String {
    proof fn lemma_roundtrip(m: Seq<char>, bytes: Seq<u8>, rest: Seq<u8>) {
        let utf8 = encode_utf8(m);
        lemma_bytes_encode_themselves(utf8);
        assert(models(utf8) =~= utf8);
        <Vec<u8> as RoundTrip>::lemma_roundtrip(utf8, bytes, rest);
        encode_utf8_valid_utf8(m);
        encode_utf8_decode_utf8(m);
    }
}

/// An encoded `&str` reads back as the `String` with the same characters.
pub proof fn lemma_str_decodes_as_string(m: Seq<char>, bytes: Seq<u8>, rest: Seq<u8>)
    requires
        <&str as Encode>::spec_encoding(m, bytes),
    ensures
        String::spec_decode(bytes + rest) == Some((m, bytes.len())),
{
    String::lemma_roundtrip(m, bytes, rest);
}

/// An encoded `Some(v)` reads back as `Ok(v)`.
pub proof fn lemma_some_decodes_as_ok<T: RoundTrip, E: Decode>(v: T::M, bytes: Seq<u8>, rest: Seq<u8>)
    requires
        Option::<T>::spec_encoding(Some(v), bytes),
    ensures
        Result::<T, E>::spec_decode(bytes + rest) == Some((Ok::<T::M, E::M>(v), bytes.len())),
{
    Option::<T>::lemma_roundtrip(Some(v), bytes, rest);
}

/// An encoded `None` followed by an encoded error `e` reads back as `Err(e)`.
pub proof fn lemma_none_then_error_decodes_as_err<T: Encode + Decode, E: RoundTrip>(
    tag: Seq<u8>,
    e: E::M,
    bytes: Seq<u8>,
    rest: Seq<u8>,
)
    requires
        Option::<T>::spec_encoding(None, tag),
        E::spec_encoding(e, bytes),
    ensures
        Result::<T, E>::spec_decode(tag + bytes + rest) == Some((Err::<T::M, E::M>(e), tag.len() + bytes.len())),
{
    assert((tag + bytes + rest)[0] == 0);
    assert((tag + bytes + rest).skip(1) =~= bytes + rest);
    E::lemma_roundtrip(e, bytes, rest);
}

/// An encoding of a value reads back as a `Box` of it.
pub proof fn lemma_box_roundtrip<T: RoundTrip>(m: T::M, bytes: Seq<u8>, rest: Seq<u8>)
    requires
        T::spec_encoding(m, bytes),
    ensures
        Box::<T>::spec_decode(bytes + rest) == Some((m, bytes.len())),
{
    T::lemma_roundtrip(m, bytes, rest);
}

/// An encoding of a value reads back as an `Rc` of it.
pub proof fn lemma_rc_roundtrip<T: RoundTrip>(m: T::M, bytes: Seq<u8>, rest: Seq<u8>)
    requires
        T::spec_encoding(m, bytes),
    ensures
        Rc::<T>::spec_decode(bytes + rest) == Some((m, bytes.len())),
{
    T::lemma_roundtrip(m, bytes, rest);
}

/// An encoded vector reads back as a boxed slice of the same items.
pub proof fn lemma_boxed_slice_roundtrip<T: RoundTrip>(ms: Seq<T::M>, bytes: Seq<u8>, rest: Seq<u8>)
    requires
        Vec::<T>::spec_encoding(ms, bytes),
    ensures
        Box::<[T]>::spec_decode(bytes + rest) == Some((ms, bytes.len())),
{
    Vec::<T>::lemma_roundtrip(ms, bytes, rest);
}

/// The encodings of `N` values, one after the other, read back as an array of them.
pub proof fn lemma_array_roundtrip<T: RoundTrip, const N: usize>(ms: Seq<T::M>, bytes: Seq<u8>, rest: Seq<u8>)
    requires
        ms.len() == N,
        encodes_all::<T>(ms, bytes),
    ensures
        <[T; N]>::spec_decode(bytes + rest) == Some((ms, bytes.len())),
{
    lemma_decode_all_roundtrip::<T>(ms, bytes, rest);
}

impl RoundTrip for () {
    proof fn lemma_roundtrip(m: (), bytes: Seq<u8>, rest: Seq<u8>) {
        assert(bytes + rest =~= rest);
    }
}

impl<T0: RoundTrip> RoundTrip for (T0,) {
    proof fn lemma_roundtrip(m: Self::M, bytes: Seq<u8>, rest: Seq<u8>) {
        let k = choose|k: int|
            0 <= k <= bytes.len() && #[trigger] T0::spec_encoding(m.0, bytes.take(k))
                && <() as Encode>::spec_encoding((), bytes.skip(k));
        T0::lemma_roundtrip(m.0, bytes.take(k), bytes.skip(k) + rest);
        assert(bytes.take(k) + (bytes.skip(k) + rest) =~= bytes + rest);
        assert((bytes + rest).skip(k) =~= bytes.skip(k) + rest);
        <() as RoundTrip>::lemma_roundtrip((), bytes.skip(k), rest);
    }
}

impl<T0: RoundTrip, T1: RoundTrip> RoundTrip for (T0, T1) {
    proof fn lemma_roundtrip(m: Self::M, bytes: Seq<u8>, rest: Seq<u8>) {
        let k = choose|k: int|
            0 <= k <= bytes.len() && #[trigger] T0::spec_encoding(m.0, bytes.take(k))
                && <(T1,) as Encode>::spec_encoding((m.1,), bytes.skip(k));
        T0::lemma_roundtrip(m.0, bytes.take(k), bytes.skip(k) + rest);
        assert(bytes.take(k) + (bytes.skip(k) + rest) =~= bytes + rest);
        assert((bytes + rest).skip(k) =~= bytes.skip(k) + rest);
        <(T1,) as RoundTrip>::lemma_roundtrip((m.1,), bytes.skip(k), rest);
    }
}

impl<T0: RoundTrip, T1: RoundTrip, T2: RoundTrip> RoundTrip for (T0, T1, T2) {
    proof fn lemma_roundtrip(m: Self::M, bytes: Seq<u8>, rest: Seq<u8>) {
        let k = choose|k: int|
            0 <= k <= bytes.len() && #[trigger] T0::spec_encoding(m.0, bytes.take(k))
                && <(T1, T2) as Encode>::spec_encoding((m.1, m.2), bytes.skip(k));
        T0::lemma_roundtrip(m.0, bytes.take(k), bytes.skip(k) + rest);
        assert(bytes.take(k) + (bytes.skip(k) + rest) =~= bytes + rest);
        assert((bytes + rest).skip(k) =~= bytes.skip(k) + rest);
        <(T1, T2) as RoundTrip>::lemma_roundtrip((m.1, m.2), bytes.skip(k), rest);
    }
}

impl<T0: RoundTrip, T1: RoundTrip, T2: RoundTrip, T3: RoundTrip> RoundTrip for (T0, T1, T2, T3) {
    proof fn lemma_roundtrip(m: Self::M, bytes: Seq<u8>, rest: Seq<u8>) {
        let k = choose|k: int|
            0 <= k <= bytes.len() && #[trigger] T0::spec_encoding(m.0, bytes.take(k))
                && <(T1, T2, T3) as Encode>::spec_encoding((m.1, m.2, m.3), bytes.skip(k));
        T0::lemma_roundtrip(m.0, bytes.take(k), bytes.skip(k) + rest);
        assert(bytes.take(k) + (bytes.skip(k) + rest) =~= bytes + rest);
        assert((bytes + rest).skip(k) =~= bytes.skip(k) + rest);
        <(T1, T2, T3) as RoundTrip>::lemma_roundtrip((m.1, m.2, m.3), bytes.skip(k), rest);
    }
}

impl<T0: RoundTrip, T1: RoundTrip, T2: RoundTrip, T3: RoundTrip, T4: RoundTrip> RoundTrip for (T0, T1, T2, T3, T4) {
    proof fn lemma_roundtrip(m: Self::M, bytes: Seq<u8>, rest: Seq<u8>) {
        let k = choose|k: int|
            0 <= k <= bytes.len() && #[trigger] T0::spec_encoding(m.0, bytes.take(k))
                && <(T1, T2, T3, T4) as Encode>::spec_encoding((m.1, m.2, m.3, m.4), bytes.skip(k));
        T0::lemma_roundtrip(m.0, bytes.take(k), bytes.skip(k) + rest);
        assert(bytes.take(k) + (bytes.skip(k) + rest) =~= bytes + rest);
        assert((bytes + rest).skip(k) =~= bytes.skip(k) + rest);
        <(T1, T2, T3, T4) as RoundTrip>::lemma_roundtrip((m.1, m.2, m.3, m.4), bytes.skip(k), rest);
    }
}

impl<T0: RoundTrip, T1: RoundTrip, T2: RoundTrip, T3: RoundTrip, T4: RoundTrip, T5: RoundTrip> RoundTrip for (T0, T1, T2, T3, T4, T5) {
    proof fn lemma_roundtrip(m: Self::M, bytes: Seq<u8>, rest: Seq<u8>) {
        let k = choose|k: int|
            0 <= k <= bytes.len() && #[trigger] T0::spec_encoding(m.0, bytes.take(k))
                && <(T1, T2, T3, T4, T5) as Encode>::spec_encoding((m.1, m.2, m.3, m.4, m.5), bytes.skip(k));
        T0::lemma_roundtrip(m.0, bytes.take(k), bytes.skip(k) + rest);
        assert(bytes.take(k) + (bytes.skip(k) + rest) =~= bytes + rest);
        assert((bytes + rest).skip(k) =~= bytes.skip(k) + rest);
        <(T1, T2, T3, T4, T5) as RoundTrip>::lemma_roundtrip((m.1, m.2, m.3, m.4, m.5), bytes.skip(k), rest);
    }
}

impl<T0: RoundTrip, T1: RoundTrip, T2: RoundTrip, T3: RoundTrip, T4: RoundTrip, T5: RoundTrip, T6: RoundTrip> RoundTrip for (T0, T1, T2, T3, T4, T5, T6) {
    proof fn lemma_roundtrip(m: Self::M, bytes: Seq<u8>, rest: Seq<u8>) {
        let k = choose|k: int|
            0 <= k <= bytes.len() && #[trigger] T0::spec_encoding(m.0, bytes.take(k))
                && <(T1, T2, T3, T4, T5, T6) as Encode>::spec_encoding((m.1, m.2, m.3, m.4, m.5, m.6), bytes.skip(k));
        T0::lemma_roundtrip(m.0, bytes.take(k), bytes.skip(k) + rest);
        assert(bytes.take(k) + (bytes.skip(k) + rest) =~= bytes + rest);
        assert((bytes + rest).skip(k) =~= bytes.skip(k) + rest);
        <(T1, T2, T3, T4, T5, T6) as RoundTrip>::lemma_roundtrip((m.1, m.2, m.3, m.4, m.5, m.6), bytes.skip(k), rest);
    }
}

impl<T0: RoundTrip, T1: RoundTrip, T2: RoundTrip, T3: RoundTrip, T4: RoundTrip, T5: RoundTrip, T6: RoundTrip, T7: RoundTrip> RoundTrip for (T0, T1, T2, T3, T4, T5, T6, T7) {
    proof fn lemma_roundtrip(m: Self::M, bytes: Seq<u8>, rest: Seq<u8>) {
        let k = choose|k: int|
            0 <= k <= bytes.len() && #[trigger] T0::spec_encoding(m.0, bytes.take(k))
                && <(T1, T2, T3, T4, T5, T6, T7) as Encode>::spec_encoding((m.1, m.2, m.3, m.4, m.5, m.6, m.7), bytes.skip(k));
        T0::lemma_roundtrip(m.0, bytes.take(k), bytes.skip(k) + rest);
        assert(bytes.take(k) + (bytes.skip(k) + rest) =~= bytes + rest);
        assert((bytes + rest).skip(k) =~= bytes.skip(k) + rest);
        <(T1, T2, T3, T4, T5, T6, T7) as RoundTrip>::lemma_roundtrip((m.1, m.2, m.3, m.4, m.5, m.6, m.7), bytes.skip(k), rest);
    }
}

impl<T0: RoundTrip, T1: RoundTrip, T2: RoundTrip, T3: RoundTrip, T4: RoundTrip, T5: RoundTrip, T6: RoundTrip, T7: RoundTrip, T8: RoundTrip> RoundTrip for (T0, T1, T2, T3, T4, T5, T6, T7, T8) {
    proof fn lemma_roundtrip(m: Self::M, bytes: Seq<u8>, rest: Seq<u8>) {
        let k = choose|k: int|
            0 <= k <= bytes.len() && #[trigger] T0::spec_encoding(m.0, bytes.take(k))
                && <(T1, T2, T3, T4, T5, T6, T7, T8) as Encode>::spec_encoding((m.1, m.2, m.3, m.4, m.5, m.6, m.7, m.8), bytes.skip(k));
        T0::lemma_roundtrip(m.0, bytes.take(k), bytes.skip(k) + rest);
        assert(bytes.take(k) + (bytes.skip(k) + rest) =~= bytes + rest);
        assert((bytes + rest).skip(k) =~= bytes.skip(k) + rest);
        <(T1, T2, T3, T4, T5, T6, T7, T8) as RoundTrip>::lemma_roundtrip((m.1, m.2, m.3, m.4, m.5, m.6, m.7, m.8), bytes.skip(k), rest);
    }
}

impl<T0: RoundTrip, T1: RoundTrip, T2: RoundTrip, T3: RoundTrip, T4: RoundTrip, T5: RoundTrip, T6: RoundTrip, T7: RoundTrip, T8: RoundTrip, T9: RoundTrip> RoundTrip for (T0, T1, T2, T3, T4, T5, T6, T7, T8, T9) {
    proof fn lemma_roundtrip(m: Self::M, bytes: Seq<u8>, rest: Seq<u8>) {
        let k = choose|k: int|
            0 <= k <= bytes.len() && #[trigger] T0::spec_encoding(m.0, bytes.take(k))
                && <(T1, T2, T3, T4, T5, T6, T7, T8, T9) as Encode>::spec_encoding((m.1, m.2, m.3, m.4, m.5, m.6, m.7, m.8, m.9), bytes.skip(k));
        T0::lemma_roundtrip(m.0, bytes.take(k), bytes.skip(k) + rest);
        assert(bytes.take(k) + (bytes.skip(k) + rest) =~= bytes + rest);
        assert((bytes + rest).skip(k) =~= bytes.skip(k) + rest);
        <(T1, T2, T3, T4, T5, T6, T7, T8, T9) as RoundTrip>::lemma_roundtrip((m.1, m.2, m.3, m.4, m.5, m.6, m.7, m.8, m.9), bytes.skip(k), rest);
    }
}

impl<T0: RoundTrip, T1: RoundTrip, T2: RoundTrip, T3: RoundTrip, T4: RoundTrip, T5: RoundTrip, T6: RoundTrip, T7: RoundTrip, T8: RoundTrip, T9: RoundTrip, T10: RoundTrip> RoundTrip for (T0, T1, T2, T3, T4, T5, T6, T7, T8, T9, T10) {
    proof fn lemma_roundtrip(m: Self::M, bytes: Seq<u8>, rest: Seq<u8>) {
        let k = choose|k: int|
            0 <= k <= bytes.len() && #[trigger] T0::spec_encoding(m.0, bytes.take(k))
                && <(T1, T2, T3, T4, T5, T6, T7, T8, T9, T10) as Encode>::spec_encoding((m.1, m.2, m.3, m.4, m.5, m.6, m.7, m.8, m.9, m.10), bytes.skip(k));
        T0::lemma_roundtrip(m.0, bytes.take(k), bytes.skip(k) + rest);
        assert(bytes.take(k) + (bytes.skip(k) + rest) =~= bytes + rest);
        assert((bytes + rest).skip(k) =~= bytes.skip(k) + rest);
        <(T1, T2, T3, T4, T5, T6, T7, T8, T9, T10) as RoundTrip>::lemma_roundtrip((m.1, m.2, m.3, m.4, m.5, m.6, m.7, m.8, m.9, m.10), bytes.skip(k), rest);
    }
}

impl<T0: RoundTrip, T1: RoundTrip, T2: RoundTrip, T3: RoundTrip, T4: RoundTrip, T5: RoundTrip, T6: RoundTrip, T7: RoundTrip, T8: RoundTrip, T9: RoundTrip, T10: RoundTrip, T11: RoundTrip> RoundTrip for (T0, T1, T2, T3, T4, T5, T6, T7, T8, T9, T10, T11) {
    proof fn lemma_roundtrip(m: Self::M, bytes: Seq<u8>, rest: Seq<u8>) {
        let k = choose|k: int|
            0 <= k <= bytes.len() && #[trigger] T0::spec_encoding(m.0, bytes.take(k))
                && <(T1, T2, T3, T4, T5, T6, T7, T8, T9, T10, T11) as Encode>::spec_encoding((m.1, m.2, m.3, m.4, m.5, m.6, m.7, m.8, m.9, m.10, m.11), bytes.skip(k));
        T0::lemma_roundtrip(m.0, bytes.take(k), bytes.skip(k) + rest);
        assert(bytes.take(k) + (bytes.skip(k) + rest) =~= bytes + rest);
        assert((bytes + rest).skip(k) =~= bytes.skip(k) + rest);
        <(T1, T2, T3, T4, T5, T6, T7, T8, T9, T10, T11) as RoundTrip>::lemma_roundtrip((m.1, m.2, m.3, m.4, m.5, m.6, m.7, m.8, m.9, m.10, m.11), bytes.skip(k), rest);
    }
}

impl<T0: RoundTrip, T1: RoundTrip, T2: RoundTrip, T3: RoundTrip, T4: RoundTrip, T5: RoundTrip, T6: RoundTrip, T7: RoundTrip, T8: RoundTrip, T9: RoundTrip, T10: RoundTrip, T11: RoundTrip, T12: RoundTrip> RoundTrip for (T0, T1, T2, T3, T4, T5, T6, T7, T8, T9, T10, T11, T12) {
    proof fn lemma_roundtrip(m: Self::M, bytes: Seq<u8>, rest: Seq<u8>) {
        let k = choose|k: int|
            0 <= k <= bytes.len() && #[trigger] T0::spec_encoding(m.0, bytes.take(k))
                && <(T1, T2, T3, T4, T5, T6, T7, T8, T9, T10, T11, T12) as Encode>::spec_encoding((m.1, m.2, m.3, m.4, m.5, m.6, m.7, m.8, m.9, m.10, m.11, m.12), bytes.skip(k));
        T0::lemma_roundtrip(m.0, bytes.take(k), bytes.skip(k) + rest);
        assert(bytes.take(k) + (bytes.skip(k) + rest) =~= bytes + rest);
        assert((bytes + rest).skip(k) =~= bytes.skip(k) + rest);
        <(T1, T2, T3, T4, T5, T6, T7, T8, T9, T10, T11, T12) as RoundTrip>::lemma_roundtrip((m.1, m.2, m.3, m.4, m.5, m.6, m.7, m.8, m.9, m.10, m.11, m.12), bytes.skip(k), rest);
    }
}

impl<T0: RoundTrip, T1: RoundTrip, T2: RoundTrip, T3: RoundTrip, T4: RoundTrip, T5: RoundTrip, T6: RoundTrip, T7: RoundTrip, T8: RoundTrip, T9: RoundTrip, T10: RoundTrip, T11: RoundTrip, T12: RoundTrip, T13: RoundTrip> RoundTrip for (T0, T1, T2, T3, T4, T5, T6, T7, T8, T9, T10, T11, T12, T13) {
    proof fn lemma_roundtrip(m: Self::M, bytes: Seq<u8>, rest: Seq<u8>) {
        let k = choose|k: int|
            0 <= k <= bytes.len() && #[trigger] T0::spec_encoding(m.0, bytes.take(k))
                && <(T1, T2, T3, T4, T5, T6, T7, T8, T9, T10, T11, T12, T13) as Encode>::spec_encoding((m.1, m.2, m.3, m.4, m.5, m.6, m.7, m.8, m.9, m.10, m.11, m.12, m.13), bytes.skip(k));
        T0::lemma_roundtrip(m.0, bytes.take(k), bytes.skip(k) + rest);
        assert(bytes.take(k) + (bytes.skip(k) + rest) =~= bytes + rest);
        assert((bytes + rest).skip(k) =~= bytes.skip(k) + rest);
        <(T1, T2, T3, T4, T5, T6, T7, T8, T9, T10, T11, T12, T13) as RoundTrip>::lemma_roundtrip((m.1, m.2, m.3, m.4, m.5, m.6, m.7, m.8, m.9, m.10, m.11, m.12, m.13), bytes.skip(k), rest);
    }
}

impl<T0: RoundTrip, T1: RoundTrip, T2: RoundTrip, T3: RoundTrip, T4: RoundTrip, T5: RoundTrip, T6: RoundTrip, T7: RoundTrip, T8: RoundTrip, T9: RoundTrip, T10: RoundTrip, T11: RoundTrip, T12: RoundTrip, T13: RoundTrip, T14: RoundTrip> RoundTrip for (T0, T1, T2, T3, T4, T5, T6, T7, T8, T9, T10, T11, T12, T13, T14) {
    proof fn lemma_roundtrip(m: Self::M, bytes: Seq<u8>, rest: Seq<u8>) {
        let k = choose|k: int|
            0 <= k <= bytes.len() && #[trigger] T0::spec_encoding(m.0, bytes.take(k))
                && <(T1, T2, T3, T4, T5, T6, T7, T8, T9, T10, T11, T12, T13, T14) as Encode>::spec_encoding((m.1, m.2, m.3, m.4, m.5, m.6, m.7, m.8, m.9, m.10, m.11, m.12, m.13, m.14), bytes.skip(k));
        T0::lemma_roundtrip(m.0, bytes.take(k), bytes.skip(k) + rest);
        assert(bytes.take(k) + (bytes.skip(k) + rest) =~= bytes + rest);
        assert((bytes + rest).skip(k) =~= bytes.skip(k) + rest);
        <(T1, T2, T3, T4, T5, T6, T7, T8, T9, T10, T11, T12, T13, T14) as RoundTrip>::lemma_roundtrip((m.1, m.2, m.3, m.4, m.5, m.6, m.7, m.8, m.9, m.10, m.11, m.12, m.13, m.14), bytes.skip(k), rest);
    }
}

impl<T0: RoundTrip, T1: RoundTrip, T2: RoundTrip, T3: RoundTrip, T4: RoundTrip, T5: RoundTrip, T6: RoundTrip, T7: RoundTrip, T8: RoundTrip, T9: RoundTrip, T10: RoundTrip, T11: RoundTrip, T12: RoundTrip, T13: RoundTrip, T14: RoundTrip, T15: RoundTrip> RoundTrip for (T0, T1, T2, T3, T4, T5, T6, T7, T8, T9, T10, T11, T12, T13, T14, T15) {
    proof fn lemma_roundtrip(m: Self::M, bytes: Seq<u8>, rest: Seq<u8>) {
        let k = choose|k: int|
            0 <= k <= bytes.len() && #[trigger] T0::spec_encoding(m.0, bytes.take(k))
                && <(T1, T2, T3, T4, T5, T6, T7, T8, T9, T10, T11, T12, T13, T14, T15) as Encode>::spec_encoding((m.1, m.2, m.3, m.4, m.5, m.6, m.7, m.8, m.9, m.10, m.11, m.12, m.13, m.14, m.15), bytes.skip(k));
        T0::lemma_roundtrip(m.0, bytes.take(k), bytes.skip(k) + rest);
        assert(bytes.take(k) + (bytes.skip(k) + rest) =~= bytes + rest);
        assert((bytes + rest).skip(k) =~= bytes.skip(k) + rest);
        <(T1, T2, T3, T4, T5, T6, T7, T8, T9, T10, T11, T12, T13, T14, T15) as RoundTrip>::lemma_roundtrip((m.1, m.2, m.3, m.4, m.5, m.6, m.7, m.8, m.9, m.10, m.11, m.12, m.13, m.14, m.15), bytes.skip(k), rest);
    }
}


} // verus!
