//! Encodings and models that pin values down: types whose every value has
//! one encoding, and types whose values are fixed by their models.
use vstd::prelude::*;
use crate::decode::Decode;
use crate::encode::{after_length, encodes_all, Encode};
use crate::model::{models, Model};
use crate::big_endian::usize_width;
use std::marker::PhantomData;
use std::rc::Rc;
use std::collections::HashMap;
use crate::encode::owned_entries;
use vstd::std_specs::hash::spec_hash_map_iter;
use vstd::std_specs::iter::IteratorSpec;

verus! {

/// A type whose values each have exactly one encoding (every type but hash
/// maps, which are written in the order in which they are walked).
pub trait UniqueEncoding: Encode {
    /// Two encodings of the same value are the same bytes, so `encode` and
    /// `encode_internal` on an empty vector give the same bytes.
    proof fn lemma_encoding_unique(m: Self::M, a: Seq<u8>, b: Seq<u8>)
        requires
            Self::spec_encoding(m, a),
            Self::spec_encoding(m, b),
        ensures
            a == b,
    ;
}

/// Bytes made of an encoding of `ma` and then one of `mb` are the same bytes
/// wherever they come from.
pub proof fn lemma_split_unique<A: UniqueEncoding, B: UniqueEncoding>(
    ma: A::M,
    mb: B::M,
    a: Seq<u8>,
    ka: int,
    b: Seq<u8>,
    kb: int,
)
    requires
        0 <= ka <= a.len(),
        0 <= kb <= b.len(),
        A::spec_encoding(ma, a.take(ka)),
        B::spec_encoding(mb, a.skip(ka)),
        A::spec_encoding(ma, b.take(kb)),
        B::spec_encoding(mb, b.skip(kb)),
    ensures
        a == b,
{
    A::lemma_encoding_unique(ma, a.take(ka), b.take(kb));
    B::lemma_encoding_unique(mb, a.skip(ka), b.skip(kb));
    assert(a =~= a.take(ka) + a.skip(ka));
    assert(b =~= b.take(kb) + b.skip(kb));
}

/// The encodings of several values, one after the other, are one byte string.
pub proof fn lemma_encodes_all_unique<T: UniqueEncoding>(ms: Seq<T::M>, a: Seq<u8>, b: Seq<u8>)
    requires
        encodes_all::<T>(ms, a),
        encodes_all::<T>(ms, b),
    ensures
        a == b,
    decreases ms.len(),
{
    if ms.len() == 0 {
        assert(a =~= b);
    } else {
        let ka = choose|k: int|
            0 <= k <= a.len() && encodes_all::<T>(ms.drop_last(), a.take(k))
                && #[trigger] T::spec_encoding(ms.last(), a.skip(k));
        let kb = choose|k: int|
            0 <= k <= b.len() && encodes_all::<T>(ms.drop_last(), b.take(k))
                && #[trigger] T::spec_encoding(ms.last(), b.skip(k));
        lemma_encodes_all_unique::<T>(ms.drop_last(), a.take(ka), b.take(kb));
        T::lemma_encoding_unique(ms.last(), a.skip(ka), b.skip(kb));
        assert(a =~= a.take(ka) + a.skip(ka));
        assert(b =~= b.take(kb) + b.skip(kb));
    }
}

impl UniqueEncoding for u8 {
    proof fn lemma_encoding_unique(m: u8, a: Seq<u8>, b: Seq<u8>) {
    }
}

impl UniqueEncoding for u16 {
    proof fn lemma_encoding_unique(m: u16, a: Seq<u8>, b: Seq<u8>) {
    }
}

impl UniqueEncoding for u32 {
    proof fn lemma_encoding_unique(m: u32, a: Seq<u8>, b: Seq<u8>) {
    }
}

impl UniqueEncoding for u64 {
    proof fn lemma_encoding_unique(m: u64, a: Seq<u8>, b: Seq<u8>) {
    }
}

impl UniqueEncoding for u128 {
    proof fn lemma_encoding_unique(m: u128, a: Seq<u8>, b: Seq<u8>) {
    }
}

impl UniqueEncoding for usize {
    proof fn lemma_encoding_unique(m: usize, a: Seq<u8>, b: Seq<u8>) {
    }
}

impl UniqueEncoding for i8 {
    proof fn lemma_encoding_unique(m: i8, a: Seq<u8>, b: Seq<u8>) {
    }
}

impl UniqueEncoding for i16 {
    proof fn lemma_encoding_unique(m: i16, a: Seq<u8>, b: Seq<u8>) {
    }
}

impl UniqueEncoding for i32 {
    proof fn lemma_encoding_unique(m: i32, a: Seq<u8>, b: Seq<u8>) {
    }
}

impl UniqueEncoding for i64 {
    proof fn lemma_encoding_unique(m: i64, a: Seq<u8>, b: Seq<u8>) {
    }
}

impl UniqueEncoding for i128 {
    proof fn lemma_encoding_unique(m: i128, a: Seq<u8>, b: Seq<u8>) {
    }
}

impl UniqueEncoding for isize {
    proof fn lemma_encoding_unique(m: isize, a: Seq<u8>, b: Seq<u8>) {
    }
}

impl UniqueEncoding for bool {
    proof fn lemma_encoding_unique(m: bool, a: Seq<u8>, b: Seq<u8>) {
    }
}

impl<T: UniqueEncoding> UniqueEncoding for Option<T> {
    proof fn lemma_encoding_unique(m: Option<T::M>, a: Seq<u8>, b: Seq<u8>) {
        if let Some(v) = m {
            T::lemma_encoding_unique(v, a.drop_first(), b.drop_first());
            assert(a =~= seq![a[0]] + a.drop_first());
            assert(b =~= seq![b[0]] + b.drop_first());
        }
    }
}

impl<T: UniqueEncoding> UniqueEncoding for Vec<T> {
    proof fn lemma_encoding_unique(m: Seq<T::M>, a: Seq<u8>, b: Seq<u8>) {
        lemma_encodes_all_unique::<T>(m, after_length(a), after_length(b));
        assert(a =~= a.take(usize_width() as int) + after_length(a));
        assert(b =~= b.take(usize_width() as int) + after_length(b));
    }
}

impl UniqueEncoding for String {
    proof fn lemma_encoding_unique(m: Seq<char>, a: Seq<u8>, b: Seq<u8>) {
        assert(a =~= a.take(usize_width() as int) + after_length(a));
        assert(b =~= b.take(usize_width() as int) + after_length(b));
    }
}

impl<'a> UniqueEncoding for &'a str {
    proof fn lemma_encoding_unique(m: Seq<char>, a: Seq<u8>, b: Seq<u8>) {
        assert(a =~= a.take(usize_width() as int) + after_length(a));
        assert(b =~= b.take(usize_width() as int) + after_length(b));
    }
}

/// A map's entries written in the order in which the map is walked give one
/// byte string, so `encode` and `encode_internal` on an empty vector agree.
pub proof fn lemma_map_encoding_unique<K: UniqueEncoding, V: UniqueEncoding>(
    m: HashMap<K, V>,
    a: Seq<u8>,
    b: Seq<u8>,
)
    requires
        <Vec<(K, V)> as Encode>::spec_encoding(models(owned_entries(spec_hash_map_iter(&m).remaining())), a),
        <Vec<(K, V)> as Encode>::spec_encoding(models(owned_entries(spec_hash_map_iter(&m).remaining())), b),
    ensures
        a == b,
{
    Vec::<(K, V)>::lemma_encoding_unique(models(owned_entries(spec_hash_map_iter(&m).remaining())), a, b);
}

/// A type whose values are fixed by their models: equal models mean equal values.
pub trait ModelInjective: Model + Sized {
    proof fn lemma_model_injective(a: Self, b: Self)
        requires
            a.model() == b.model(),
        ensures
            a == b,
    ;
}

impl ModelInjective for u8 {
    proof fn lemma_model_injective(a: u8, b: u8) {
    }
}

impl ModelInjective for u16 {
    proof fn lemma_model_injective(a: u16, b: u16) {
    }
}

impl ModelInjective for u32 {
    proof fn lemma_model_injective(a: u32, b: u32) {
    }
}

impl ModelInjective for u64 {
    proof fn lemma_model_injective(a: u64, b: u64) {
    }
}

impl ModelInjective for u128 {
    proof fn lemma_model_injective(a: u128, b: u128) {
    }
}

impl ModelInjective for usize {
    proof fn lemma_model_injective(a: usize, b: usize) {
    }
}

impl ModelInjective for i8 {
    proof fn lemma_model_injective(a: i8, b: i8) {
    }
}

impl ModelInjective for i16 {
    proof fn lemma_model_injective(a: i16, b: i16) {
    }
}

impl ModelInjective for i32 {
    proof fn lemma_model_injective(a: i32, b: i32) {
    }
}

impl ModelInjective for i64 {
    proof fn lemma_model_injective(a: i64, b: i64) {
    }
}

impl ModelInjective for i128 {
    proof fn lemma_model_injective(a: i128, b: i128) {
    }
}

impl ModelInjective for isize {
    proof fn lemma_model_injective(a: isize, b: isize) {
    }
}

impl ModelInjective for bool {
    proof fn lemma_model_injective(a: bool, b: bool) {
    }
}

impl<T> ModelInjective for PhantomData<T> {
    proof fn lemma_model_injective(a: PhantomData<T>, b: PhantomData<T>) {
    }
}

impl<T: ModelInjective> ModelInjective for Option<T> {
    proof fn lemma_model_injective(a: Option<T>, b: Option<T>) {
        if let (Some(x), Some(y)) = (a, b) {
            T::lemma_model_injective(x, y);
        }
    }
}

impl<T: ModelInjective> ModelInjective for Box<T> {
    proof fn lemma_model_injective(a: Box<T>, b: Box<T>) {
        T::lemma_model_injective(*a, *b);
    }
}

/// The value that `r` holds.
pub open spec fn rc_value<T>(r: Rc<T>) -> T {
    *r
}

impl<T: ModelInjective> ModelInjective for Rc<T> {
    proof fn lemma_model_injective(a: Rc<T>, b: Rc<T>) {
        T::lemma_model_injective(rc_value(a), rc_value(b));
    }
}

/// Items with the same models are the same items. Vectors and strings are
/// fixed by their views (the items, the characters), which `==` compares;
/// their models give the views back.
pub proof fn lemma_items_fixed_by_models<T: ModelInjective>(a: Seq<T>, b: Seq<T>)
    requires
        models(a) == models(b),
    ensures
        a == b,
{
    assert(a.len() == models(a).len());
    assert(b.len() == models(b).len());
    assert forall|i: int| 0 <= i < a.len() implies a[i] == b[i] by {
        assert(models(a)[i] == models(b)[i]);
        assert(models(a)[i] == a[i].model());
        assert(models(b)[i] == b[i].model());
        T::lemma_model_injective(a[i], b[i]);
    }
    assert(a =~= b);
}

/// `Box<T>` reads the same bytes as `T` and gives the same value.
pub proof fn lemma_box_decodes_as_inner<T: Decode + ModelInjective>(bytes: Seq<u8>, boxed: Box<T>, inner: T)
    requires
        T::spec_decode(bytes) is Some,
        boxed.model() == Box::<T>::spec_decode(bytes).unwrap().0,
        inner.model() == T::spec_decode(bytes).unwrap().0,
    ensures
        Box::<T>::spec_decode(bytes) is Some,
        Box::<T>::spec_decode(bytes).unwrap().1 == T::spec_decode(bytes).unwrap().1,
        *boxed == inner,
{
    T::lemma_model_injective(*boxed, inner);
}

/// `Rc<T>` reads the same bytes as `T` and holds the same value.
pub proof fn lemma_rc_decodes_as_inner<T: Decode + ModelInjective>(bytes: Seq<u8>, shared: Rc<T>, inner: T)
    requires
        T::spec_decode(bytes) is Some,
        shared.model() == Rc::<T>::spec_decode(bytes).unwrap().0,
        inner.model() == T::spec_decode(bytes).unwrap().0,
    ensures
        Rc::<T>::spec_decode(bytes) is Some,
        Rc::<T>::spec_decode(bytes).unwrap().1 == T::spec_decode(bytes).unwrap().1,
        *shared == inner,
{
    T::lemma_model_injective(rc_value(shared), inner);
}

/// `Vec<T>` reads the same bytes as `Box<[T]>` and, once the slice is turned
/// into a vector, holds the same items.
pub proof fn lemma_vec_decodes_as_boxed_slice<T: Decode + ModelInjective>(
    bytes: Seq<u8>,
    v: Vec<T>,
    boxed: Box<[T]>,
)
    requires
        Box::<[T]>::spec_decode(bytes) is Some,
        v.model() == Vec::<T>::spec_decode(bytes).unwrap().0,
        boxed.model() == Box::<[T]>::spec_decode(bytes).unwrap().0,
    ensures
        Vec::<T>::spec_decode(bytes) is Some,
        Vec::<T>::spec_decode(bytes).unwrap().1 == Box::<[T]>::spec_decode(bytes).unwrap().1,
        v@ == boxed@,
{
    lemma_items_fixed_by_models::<T>(v@, boxed@);
}

impl UniqueEncoding for () {
    proof fn lemma_encoding_unique(m: (), a: Seq<u8>, b: Seq<u8>) {
        assert(a =~= b);
    }
}

impl<T0: UniqueEncoding> UniqueEncoding for (T0,) {
    proof fn lemma_encoding_unique(m: Self::M, a: Seq<u8>, b: Seq<u8>) {
        let ka = choose|k: int|
            0 <= k <= a.len() && #[trigger] T0::spec_encoding(m.0, a.take(k))
                && <() as Encode>::spec_encoding((), a.skip(k));
        let kb = choose|k: int|
            0 <= k <= b.len() && #[trigger] T0::spec_encoding(m.0, b.take(k))
                && <() as Encode>::spec_encoding((), b.skip(k));
        lemma_split_unique::<T0, ()>(m.0, (), a, ka, b, kb);
    }
}

impl<T0: UniqueEncoding, T1: UniqueEncoding> UniqueEncoding for (T0, T1) {
    proof fn lemma_encoding_unique(m: Self::M, a: Seq<u8>, b: Seq<u8>) {
        let ka = choose|k: int|
            0 <= k <= a.len() && #[trigger] T0::spec_encoding(m.0, a.take(k))
                && <(T1,) as Encode>::spec_encoding((m.1,), a.skip(k));
        let kb = choose|k: int|
            0 <= k <= b.len() && #[trigger] T0::spec_encoding(m.0, b.take(k))
                && <(T1,) as Encode>::spec_encoding((m.1,), b.skip(k));
        lemma_split_unique::<T0, (T1,)>(m.0, (m.1,), a, ka, b, kb);
    }
}

impl<T0: UniqueEncoding, T1: UniqueEncoding, T2: UniqueEncoding> UniqueEncoding for (T0, T1, T2) {
    proof fn lemma_encoding_unique(m: Self::M, a: Seq<u8>, b: Seq<u8>) {
        let ka = choose|k: int|
            0 <= k <= a.len() && #[trigger] T0::spec_encoding(m.0, a.take(k))
                && <(T1, T2) as Encode>::spec_encoding((m.1, m.2), a.skip(k));
        let kb = choose|k: int|
            0 <= k <= b.len() && #[trigger] T0::spec_encoding(m.0, b.take(k))
                && <(T1, T2) as Encode>::spec_encoding((m.1, m.2), b.skip(k));
        lemma_split_unique::<T0, (T1, T2)>(m.0, (m.1, m.2), a, ka, b, kb);
    }
}

impl<T0: UniqueEncoding, T1: UniqueEncoding, T2: UniqueEncoding, T3: UniqueEncoding> UniqueEncoding for (T0, T1, T2, T3) {
    proof fn lemma_encoding_unique(m: Self::M, a: Seq<u8>, b: Seq<u8>) {
        let ka = choose|k: int|
            0 <= k <= a.len() && #[trigger] T0::spec_encoding(m.0, a.take(k))
                && <(T1, T2, T3) as Encode>::spec_encoding((m.1, m.2, m.3), a.skip(k));
        let kb = choose|k: int|
            0 <= k <= b.len() && #[trigger] T0::spec_encoding(m.0, b.take(k))
                && <(T1, T2, T3) as Encode>::spec_encoding((m.1, m.2, m.3), b.skip(k));
        lemma_split_unique::<T0, (T1, T2, T3)>(m.0, (m.1, m.2, m.3), a, ka, b, kb);
    }
}

impl<T0: UniqueEncoding, T1: UniqueEncoding, T2: UniqueEncoding, T3: UniqueEncoding, T4: UniqueEncoding> UniqueEncoding for (T0, T1, T2, T3, T4) {
    proof fn lemma_encoding_unique(m: Self::M, a: Seq<u8>, b: Seq<u8>) {
        let ka = choose|k: int|
            0 <= k <= a.len() && #[trigger] T0::spec_encoding(m.0, a.take(k))
                && <(T1, T2, T3, T4) as Encode>::spec_encoding((m.1, m.2, m.3, m.4), a.skip(k));
        let kb = choose|k: int|
            0 <= k <= b.len() && #[trigger] T0::spec_encoding(m.0, b.take(k))
                && <(T1, T2, T3, T4) as Encode>::spec_encoding((m.1, m.2, m.3, m.4), b.skip(k));
        lemma_split_unique::<T0, (T1, T2, T3, T4)>(m.0, (m.1, m.2, m.3, m.4), a, ka, b, kb);
    }
}

impl<T0: UniqueEncoding, T1: UniqueEncoding, T2: UniqueEncoding, T3: UniqueEncoding, T4: UniqueEncoding, T5: UniqueEncoding> UniqueEncoding for (T0, T1, T2, T3, T4, T5) {
    proof fn lemma_encoding_unique(m: Self::M, a: Seq<u8>, b: Seq<u8>) {
        let ka = choose|k: int|
            0 <= k <= a.len() && #[trigger] T0::spec_encoding(m.0, a.take(k))
                && <(T1, T2, T3, T4, T5) as Encode>::spec_encoding((m.1, m.2, m.3, m.4, m.5), a.skip(k));
        let kb = choose|k: int|
            0 <= k <= b.len() && #[trigger] T0::spec_encoding(m.0, b.take(k))
                && <(T1, T2, T3, T4, T5) as Encode>::spec_encoding((m.1, m.2, m.3, m.4, m.5), b.skip(k));
        lemma_split_unique::<T0, (T1, T2, T3, T4, T5)>(m.0, (m.1, m.2, m.3, m.4, m.5), a, ka, b, kb);
    }
}

impl<T0: UniqueEncoding, T1: UniqueEncoding, T2: UniqueEncoding, T3: UniqueEncoding, T4: UniqueEncoding, T5: UniqueEncoding, T6: UniqueEncoding> UniqueEncoding for (T0, T1, T2, T3, T4, T5, T6) {
    proof fn lemma_encoding_unique(m: Self::M, a: Seq<u8>, b: Seq<u8>) {
        let ka = choose|k: int|
            0 <= k <= a.len() && #[trigger] T0::spec_encoding(m.0, a.take(k))
                && <(T1, T2, T3, T4, T5, T6) as Encode>::spec_encoding((m.1, m.2, m.3, m.4, m.5, m.6), a.skip(k));
        let kb = choose|k: int|
            0 <= k <= b.len() && #[trigger] T0::spec_encoding(m.0, b.take(k))
                && <(T1, T2, T3, T4, T5, T6) as Encode>::spec_encoding((m.1, m.2, m.3, m.4, m.5, m.6), b.skip(k));
        lemma_split_unique::<T0, (T1, T2, T3, T4, T5, T6)>(m.0, (m.1, m.2, m.3, m.4, m.5, m.6), a, ka, b, kb);
    }
}

impl<T0: UniqueEncoding, T1: UniqueEncoding, T2: UniqueEncoding, T3: UniqueEncoding, T4: UniqueEncoding, T5: UniqueEncoding, T6: UniqueEncoding, T7: UniqueEncoding> UniqueEncoding for (T0, T1, T2, T3, T4, T5, T6, T7) {
    proof fn lemma_encoding_unique(m: Self::M, a: Seq<u8>, b: Seq<u8>) {
        let ka = choose|k: int|
            0 <= k <= a.len() && #[trigger] T0::spec_encoding(m.0, a.take(k))
                && <(T1, T2, T3, T4, T5, T6, T7) as Encode>::spec_encoding((m.1, m.2, m.3, m.4, m.5, m.6, m.7), a.skip(k));
        let kb = choose|k: int|
            0 <= k <= b.len() && #[trigger] T0::spec_encoding(m.0, b.take(k))
                && <(T1, T2, T3, T4, T5, T6, T7) as Encode>::spec_encoding((m.1, m.2, m.3, m.4, m.5, m.6, m.7), b.skip(k));
        lemma_split_unique::<T0, (T1, T2, T3, T4, T5, T6, T7)>(m.0, (m.1, m.2, m.3, m.4, m.5, m.6, m.7), a, ka, b, kb);
    }
}

impl<T0: UniqueEncoding, T1: UniqueEncoding, T2: UniqueEncoding, T3: UniqueEncoding, T4: UniqueEncoding, T5: UniqueEncoding, T6: UniqueEncoding, T7: UniqueEncoding, T8: UniqueEncoding> UniqueEncoding for (T0, T1, T2, T3, T4, T5, T6, T7, T8) {
    proof fn lemma_encoding_unique(m: Self::M, a: Seq<u8>, b: Seq<u8>) {
        let ka = choose|k: int|
            0 <= k <= a.len() && #[trigger] T0::spec_encoding(m.0, a.take(k))
                && <(T1, T2, T3, T4, T5, T6, T7, T8) as Encode>::spec_encoding((m.1, m.2, m.3, m.4, m.5, m.6, m.7, m.8), a.skip(k));
        let kb = choose|k: int|
            0 <= k <= b.len() && #[trigger] T0::spec_encoding(m.0, b.take(k))
                && <(T1, T2, T3, T4, T5, T6, T7, T8) as Encode>::spec_encoding((m.1, m.2, m.3, m.4, m.5, m.6, m.7, m.8), b.skip(k));
        lemma_split_unique::<T0, (T1, T2, T3, T4, T5, T6, T7, T8)>(m.0, (m.1, m.2, m.3, m.4, m.5, m.6, m.7, m.8), a, ka, b, kb);
    }
}

impl<T0: UniqueEncoding, T1: UniqueEncoding, T2: UniqueEncoding, T3: UniqueEncoding, T4: UniqueEncoding, T5: UniqueEncoding, T6: UniqueEncoding, T7: UniqueEncoding, T8: UniqueEncoding, T9: UniqueEncoding> UniqueEncoding for (T0, T1, T2, T3, T4, T5, T6, T7, T8, T9) {
    proof fn lemma_encoding_unique(m: Self::M, a: Seq<u8>, b: Seq<u8>) {
        let ka = choose|k: int|
            0 <= k <= a.len() && #[trigger] T0::spec_encoding(m.0, a.take(k))
                && <(T1, T2, T3, T4, T5, T6, T7, T8, T9) as Encode>::spec_encoding((m.1, m.2, m.3, m.4, m.5, m.6, m.7, m.8, m.9), a.skip(k));
        let kb = choose|k: int|
            0 <= k <= b.len() && #[trigger] T0::spec_encoding(m.0, b.take(k))
                && <(T1, T2, T3, T4, T5, T6, T7, T8, T9) as Encode>::spec_encoding((m.1, m.2, m.3, m.4, m.5, m.6, m.7, m.8, m.9), b.skip(k));
        lemma_split_unique::<T0, (T1, T2, T3, T4, T5, T6, T7, T8, T9)>(m.0, (m.1, m.2, m.3, m.4, m.5, m.6, m.7, m.8, m.9), a, ka, b, kb);
    }
}

impl<T0: UniqueEncoding, T1: UniqueEncoding, T2: UniqueEncoding, T3: UniqueEncoding, T4: UniqueEncoding, T5: UniqueEncoding, T6: UniqueEncoding, T7: UniqueEncoding, T8: UniqueEncoding, T9: UniqueEncoding, T10: UniqueEncoding> UniqueEncoding for (T0, T1, T2, T3, T4, T5, T6, T7, T8, T9, T10) {
    proof fn lemma_encoding_unique(m: Self::M, a: Seq<u8>, b: Seq<u8>) {
        let ka = choose|k: int|
            0 <= k <= a.len() && #[trigger] T0::spec_encoding(m.0, a.take(k))
                && <(T1, T2, T3, T4, T5, T6, T7, T8, T9, T10) as Encode>::spec_encoding((m.1, m.2, m.3, m.4, m.5, m.6, m.7, m.8, m.9, m.10), a.skip(k));
        let kb = choose|k: int|
            0 <= k <= b.len() && #[trigger] T0::spec_encoding(m.0, b.take(k))
                && <(T1, T2, T3, T4, T5, T6, T7, T8, T9, T10) as Encode>::spec_encoding((m.1, m.2, m.3, m.4, m.5, m.6, m.7, m.8, m.9, m.10), b.skip(k));
        lemma_split_unique::<T0, (T1, T2, T3, T4, T5, T6, T7, T8, T9, T10)>(m.0, (m.1, m.2, m.3, m.4, m.5, m.6, m.7, m.8, m.9, m.10), a, ka, b, kb);
    }
}

impl<T0: UniqueEncoding, T1: UniqueEncoding, T2: UniqueEncoding, T3: UniqueEncoding, T4: UniqueEncoding, T5: UniqueEncoding, T6: UniqueEncoding, T7: UniqueEncoding, T8: UniqueEncoding, T9: UniqueEncoding, T10: UniqueEncoding, T11: UniqueEncoding> UniqueEncoding for (T0, T1, T2, T3, T4, T5, T6, T7, T8, T9, T10, T11) {
    proof fn lemma_encoding_unique(m: Self::M, a: Seq<u8>, b: Seq<u8>) {
        let ka = choose|k: int|
            0 <= k <= a.len() && #[trigger] T0::spec_encoding(m.0, a.take(k))
                && <(T1, T2, T3, T4, T5, T6, T7, T8, T9, T10, T11) as Encode>::spec_encoding((m.1, m.2, m.3, m.4, m.5, m.6, m.7, m.8, m.9, m.10, m.11), a.skip(k));
        let kb = choose|k: int|
            0 <= k <= b.len() && #[trigger] T0::spec_encoding(m.0, b.take(k))
                && <(T1, T2, T3, T4, T5, T6, T7, T8, T9, T10, T11) as Encode>::spec_encoding((m.1, m.2, m.3, m.4, m.5, m.6, m.7, m.8, m.9, m.10, m.11), b.skip(k));
        lemma_split_unique::<T0, (T1, T2, T3, T4, T5, T6, T7, T8, T9, T10, T11)>(m.0, (m.1, m.2, m.3, m.4, m.5, m.6, m.7, m.8, m.9, m.10, m.11), a, ka, b, kb);
    }
}

impl<T0: UniqueEncoding, T1: UniqueEncoding, T2: UniqueEncoding, T3: UniqueEncoding, T4: UniqueEncoding, T5: UniqueEncoding, T6: UniqueEncoding, T7: UniqueEncoding, T8: UniqueEncoding, T9: UniqueEncoding, T10: UniqueEncoding, T11: UniqueEncoding, T12: UniqueEncoding> UniqueEncoding for (T0, T1, T2, T3, T4, T5, T6, T7, T8, T9, T10, T11, T12) {
    proof fn lemma_encoding_unique(m: Self::M, a: Seq<u8>, b: Seq<u8>) {
        let ka = choose|k: int|
            0 <= k <= a.len() && #[trigger] T0::spec_encoding(m.0, a.take(k))
                && <(T1, T2, T3, T4, T5, T6, T7, T8, T9, T10, T11, T12) as Encode>::spec_encoding((m.1, m.2, m.3, m.4, m.5, m.6, m.7, m.8, m.9, m.10, m.11, m.12), a.skip(k));
        let kb = choose|k: int|
            0 <= k <= b.len() && #[trigger] T0::spec_encoding(m.0, b.take(k))
                && <(T1, T2, T3, T4, T5, T6, T7, T8, T9, T10, T11, T12) as Encode>::spec_encoding((m.1, m.2, m.3, m.4, m.5, m.6, m.7, m.8, m.9, m.10, m.11, m.12), b.skip(k));
        lemma_split_unique::<T0, (T1, T2, T3, T4, T5, T6, T7, T8, T9, T10, T11, T12)>(m.0, (m.1, m.2, m.3, m.4, m.5, m.6, m.7, m.8, m.9, m.10, m.11, m.12), a, ka, b, kb);
    }
}

impl<T0: UniqueEncoding, T1: UniqueEncoding, T2: UniqueEncoding, T3: UniqueEncoding, T4: UniqueEncoding, T5: UniqueEncoding, T6: UniqueEncoding, T7: UniqueEncoding, T8: UniqueEncoding, T9: UniqueEncoding, T10: UniqueEncoding, T11: UniqueEncoding, T12: UniqueEncoding, T13: UniqueEncoding> UniqueEncoding for (T0, T1, T2, T3, T4, T5, T6, T7, T8, T9, T10, T11, T12, T13) {
    proof fn lemma_encoding_unique(m: Self::M, a: Seq<u8>, b: Seq<u8>) {
        let ka = choose|k: int|
            0 <= k <= a.len() && #[trigger] T0::spec_encoding(m.0, a.take(k))
                && <(T1, T2, T3, T4, T5, T6, T7, T8, T9, T10, T11, T12, T13) as Encode>::spec_encoding((m.1, m.2, m.3, m.4, m.5, m.6, m.7, m.8, m.9, m.10, m.11, m.12, m.13), a.skip(k));
        let kb = choose|k: int|
            0 <= k <= b.len() && #[trigger] T0::spec_encoding(m.0, b.take(k))
                && <(T1, T2, T3, T4, T5, T6, T7, T8, T9, T10, T11, T12, T13) as Encode>::spec_encoding((m.1, m.2, m.3, m.4, m.5, m.6, m.7, m.8, m.9, m.10, m.11, m.12, m.13), b.skip(k));
        lemma_split_unique::<T0, (T1, T2, T3, T4, T5, T6, T7, T8, T9, T10, T11, T12, T13)>(m.0, (m.1, m.2, m.3, m.4, m.5, m.6, m.7, m.8, m.9, m.10, m.11, m.12, m.13), a, ka, b, kb);
    }
}

impl<T0: UniqueEncoding, T1: UniqueEncoding, T2: UniqueEncoding, T3: UniqueEncoding, T4: UniqueEncoding, T5: UniqueEncoding, T6: UniqueEncoding, T7: UniqueEncoding, T8: UniqueEncoding, T9: UniqueEncoding, T10: UniqueEncoding, T11: UniqueEncoding, T12: UniqueEncoding, T13: UniqueEncoding, T14: UniqueEncoding> UniqueEncoding for (T0, T1, T2, T3, T4, T5, T6, T7, T8, T9, T10, T11, T12, T13, T14) {
    proof fn lemma_encoding_unique(m: Self::M, a: Seq<u8>, b: Seq<u8>) {
        let ka = choose|k: int|
            0 <= k <= a.len() && #[trigger] T0::spec_encoding(m.0, a.take(k))
                && <(T1, T2, T3, T4, T5, T6, T7, T8, T9, T10, T11, T12, T13, T14) as Encode>::spec_encoding((m.1, m.2, m.3, m.4, m.5, m.6, m.7, m.8, m.9, m.10, m.11, m.12, m.13, m.14), a.skip(k));
        let kb = choose|k: int|
            0 <= k <= b.len() && #[trigger] T0::spec_encoding(m.0, b.take(k))
                && <(T1, T2, T3, T4, T5, T6, T7, T8, T9, T10, T11, T12, T13, T14) as Encode>::spec_encoding((m.1, m.2, m.3, m.4, m.5, m.6, m.7, m.8, m.9, m.10, m.11, m.12, m.13, m.14), b.skip(k));
        lemma_split_unique::<T0, (T1, T2, T3, T4, T5, T6, T7, T8, T9, T10, T11, T12, T13, T14)>(m.0, (m.1, m.2, m.3, m.4, m.5, m.6, m.7, m.8, m.9, m.10, m.11, m.12, m.13, m.14), a, ka, b, kb);
    }
}

impl<T0: UniqueEncoding, T1: UniqueEncoding, T2: UniqueEncoding, T3: UniqueEncoding, T4: UniqueEncoding, T5: UniqueEncoding, T6: UniqueEncoding, T7: UniqueEncoding, T8: UniqueEncoding, T9: UniqueEncoding, T10: UniqueEncoding, T11: UniqueEncoding, T12: UniqueEncoding, T13: UniqueEncoding, T14: UniqueEncoding, T15: UniqueEncoding> UniqueEncoding for (T0, T1, T2, T3, T4, T5, T6, T7, T8, T9, T10, T11, T12, T13, T14, T15) {
    proof fn lemma_encoding_unique(m: Self::M, a: Seq<u8>, b: Seq<u8>) {
        let ka = choose|k: int|
            0 <= k <= a.len() && #[trigger] T0::spec_encoding(m.0, a.take(k))
                && <(T1, T2, T3, T4, T5, T6, T7, T8, T9, T10, T11, T12, T13, T14, T15) as Encode>::spec_encoding((m.1, m.2, m.3, m.4, m.5, m.6, m.7, m.8, m.9, m.10, m.11, m.12, m.13, m.14, m.15), a.skip(k));
        let kb = choose|k: int|
            0 <= k <= b.len() && #[trigger] T0::spec_encoding(m.0, b.take(k))
                && <(T1, T2, T3, T4, T5, T6, T7, T8, T9, T10, T11, T12, T13, T14, T15) as Encode>::spec_encoding((m.1, m.2, m.3, m.4, m.5, m.6, m.7, m.8, m.9, m.10, m.11, m.12, m.13, m.14, m.15), b.skip(k));
        lemma_split_unique::<T0, (T1, T2, T3, T4, T5, T6, T7, T8, T9, T10, T11, T12, T13, T14, T15)>(m.0, (m.1, m.2, m.3, m.4, m.5, m.6, m.7, m.8, m.9, m.10, m.11, m.12, m.13, m.14, m.15), a, ka, b, kb);
    }
}

impl ModelInjective for () {
    proof fn lemma_model_injective(a: (), b: ()) {
    }
}

impl<T0: ModelInjective> ModelInjective for (T0,) {
    proof fn lemma_model_injective(a: Self, b: Self) {
        T0::lemma_model_injective(a.0, b.0);
    }
}

impl<T0: ModelInjective, T1: ModelInjective> ModelInjective for (T0, T1) {
    proof fn lemma_model_injective(a: Self, b: Self) {
        T0::lemma_model_injective(a.0, b.0);
        T1::lemma_model_injective(a.1, b.1);
    }
}

impl<T0: ModelInjective, T1: ModelInjective, T2: ModelInjective> ModelInjective for (T0, T1, T2) {
    proof fn lemma_model_injective(a: Self, b: Self) {
        T0::lemma_model_injective(a.0, b.0);
        T1::lemma_model_injective(a.1, b.1);
        T2::lemma_model_injective(a.2, b.2);
    }
}

impl<T0: ModelInjective, T1: ModelInjective, T2: ModelInjective, T3: ModelInjective> ModelInjective for (T0, T1, T2, T3) {
    proof fn lemma_model_injective(a: Self, b: Self) {
        T0::lemma_model_injective(a.0, b.0);
        T1::lemma_model_injective(a.1, b.1);
        T2::lemma_model_injective(a.2, b.2);
        T3::lemma_model_injective(a.3, b.3);
    }
}

impl<T0: ModelInjective, T1: ModelInjective, T2: ModelInjective, T3: ModelInjective, T4: ModelInjective> ModelInjective for (T0, T1, T2, T3, T4) {
    proof fn lemma_model_injective(a: Self, b: Self) {
        T0::lemma_model_injective(a.0, b.0);
        T1::lemma_model_injective(a.1, b.1);
        T2::lemma_model_injective(a.2, b.2);
        T3::lemma_model_injective(a.3, b.3);
        T4::lemma_model_injective(a.4, b.4);
    }
}

impl<T0: ModelInjective, T1: ModelInjective, T2: ModelInjective, T3: ModelInjective, T4: ModelInjective, T5: ModelInjective> ModelInjective for (T0, T1, T2, T3, T4, T5) {
    proof fn lemma_model_injective(a: Self, b: Self) {
        T0::lemma_model_injective(a.0, b.0);
        T1::lemma_model_injective(a.1, b.1);
        T2::lemma_model_injective(a.2, b.2);
        T3::lemma_model_injective(a.3, b.3);
        T4::lemma_model_injective(a.4, b.4);
        T5::lemma_model_injective(a.5, b.5);
    }
}

impl<T0: ModelInjective, T1: ModelInjective, T2: ModelInjective, T3: ModelInjective, T4: ModelInjective, T5: ModelInjective, T6: ModelInjective> ModelInjective for (T0, T1, T2, T3, T4, T5, T6) {
    proof fn lemma_model_injective(a: Self, b: Self) {
        T0::lemma_model_injective(a.0, b.0);
        T1::lemma_model_injective(a.1, b.1);
        T2::lemma_model_injective(a.2, b.2);
        T3::lemma_model_injective(a.3, b.3);
        T4::lemma_model_injective(a.4, b.4);
        T5::lemma_model_injective(a.5, b.5);
        T6::lemma_model_injective(a.6, b.6);
    }
}

impl<T0: ModelInjective, T1: ModelInjective, T2: ModelInjective, T3: ModelInjective, T4: ModelInjective, T5: ModelInjective, T6: ModelInjective, T7: ModelInjective> ModelInjective for (T0, T1, T2, T3, T4, T5, T6, T7) {
    proof fn lemma_model_injective(a: Self, b: Self) {
        T0::lemma_model_injective(a.0, b.0);
        T1::lemma_model_injective(a.1, b.1);
        T2::lemma_model_injective(a.2, b.2);
        T3::lemma_model_injective(a.3, b.3);
        T4::lemma_model_injective(a.4, b.4);
        T5::lemma_model_injective(a.5, b.5);
        T6::lemma_model_injective(a.6, b.6);
        T7::lemma_model_injective(a.7, b.7);
    }
}

impl<T0: ModelInjective, T1: ModelInjective, T2: ModelInjective, T3: ModelInjective, T4: ModelInjective, T5: ModelInjective, T6: ModelInjective, T7: ModelInjective, T8: ModelInjective> ModelInjective for (T0, T1, T2, T3, T4, T5, T6, T7, T8) {
    proof fn lemma_model_injective(a: Self, b: Self) {
        T0::lemma_model_injective(a.0, b.0);
        T1::lemma_model_injective(a.1, b.1);
        T2::lemma_model_injective(a.2, b.2);
        T3::lemma_model_injective(a.3, b.3);
        T4::lemma_model_injective(a.4, b.4);
        T5::lemma_model_injective(a.5, b.5);
        T6::lemma_model_injective(a.6, b.6);
        T7::lemma_model_injective(a.7, b.7);
        T8::lemma_model_injective(a.8, b.8);
    }
}

impl<T0: ModelInjective, T1: ModelInjective, T2: ModelInjective, T3: ModelInjective, T4: ModelInjective, T5: ModelInjective, T6: ModelInjective, T7: ModelInjective, T8: ModelInjective, T9: ModelInjective> ModelInjective for (T0, T1, T2, T3, T4, T5, T6, T7, T8, T9) {
    proof fn lemma_model_injective(a: Self, b: Self) {
        T0::lemma_model_injective(a.0, b.0);
        T1::lemma_model_injective(a.1, b.1);
        T2::lemma_model_injective(a.2, b.2);
        T3::lemma_model_injective(a.3, b.3);
        T4::lemma_model_injective(a.4, b.4);
        T5::lemma_model_injective(a.5, b.5);
        T6::lemma_model_injective(a.6, b.6);
        T7::lemma_model_injective(a.7, b.7);
        T8::lemma_model_injective(a.8, b.8);
        T9::lemma_model_injective(a.9, b.9);
    }
}

impl<T0: ModelInjective, T1: ModelInjective, T2: ModelInjective, T3: ModelInjective, T4: ModelInjective, T5: ModelInjective, T6: ModelInjective, T7: ModelInjective, T8: ModelInjective, T9: ModelInjective, T10: ModelInjective> ModelInjective for (T0, T1, T2, T3, T4, T5, T6, T7, T8, T9, T10) {
    proof fn lemma_model_injective(a: Self, b: Self) {
        T0::lemma_model_injective(a.0, b.0);
        T1::lemma_model_injective(a.1, b.1);
        T2::lemma_model_injective(a.2, b.2);
        T3::lemma_model_injective(a.3, b.3);
        T4::lemma_model_injective(a.4, b.4);
        T5::lemma_model_injective(a.5, b.5);
        T6::lemma_model_injective(a.6, b.6);
        T7::lemma_model_injective(a.7, b.7);
        T8::lemma_model_injective(a.8, b.8);
        T9::lemma_model_injective(a.9, b.9);
        T10::lemma_model_injective(a.10, b.10);
    }
}

impl<T0: ModelInjective, T1: ModelInjective, T2: ModelInjective, T3: ModelInjective, T4: ModelInjective, T5: ModelInjective, T6: ModelInjective, T7: ModelInjective, T8: ModelInjective, T9: ModelInjective, T10: ModelInjective, T11: ModelInjective> ModelInjective for (T0, T1, T2, T3, T4, T5, T6, T7, T8, T9, T10, T11) {
    proof fn lemma_model_injective(a: Self, b: Self) {
        T0::lemma_model_injective(a.0, b.0);
        T1::lemma_model_injective(a.1, b.1);
        T2::lemma_model_injective(a.2, b.2);
        T3::lemma_model_injective(a.3, b.3);
        T4::lemma_model_injective(a.4, b.4);
        T5::lemma_model_injective(a.5, b.5);
        T6::lemma_model_injective(a.6, b.6);
        T7::lemma_model_injective(a.7, b.7);
        T8::lemma_model_injective(a.8, b.8);
        T9::lemma_model_injective(a.9, b.9);
        T10::lemma_model_injective(a.10, b.10);
        T11::lemma_model_injective(a.11, b.11);
    }
}

impl<T0: ModelInjective, T1: ModelInjective, T2: ModelInjective, T3: ModelInjective, T4: ModelInjective, T5: ModelInjective, T6: ModelInjective, T7: ModelInjective, T8: ModelInjective, T9: ModelInjective, T10: ModelInjective, T11: ModelInjective, T12: ModelInjective> ModelInjective for (T0, T1, T2, T3, T4, T5, T6, T7, T8, T9, T10, T11, T12) {
    proof fn lemma_model_injective(a: Self, b: Self) {
        T0::lemma_model_injective(a.0, b.0);
        T1::lemma_model_injective(a.1, b.1);
        T2::lemma_model_injective(a.2, b.2);
        T3::lemma_model_injective(a.3, b.3);
        T4::lemma_model_injective(a.4, b.4);
        T5::lemma_model_injective(a.5, b.5);
        T6::lemma_model_injective(a.6, b.6);
        T7::lemma_model_injective(a.7, b.7);
        T8::lemma_model_injective(a.8, b.8);
        T9::lemma_model_injective(a.9, b.9);
        T10::lemma_model_injective(a.10, b.10);
        T11::lemma_model_injective(a.11, b.11);
        T12::lemma_model_injective(a.12, b.12);
    }
}

impl<T0: ModelInjective, T1: ModelInjective, T2: ModelInjective, T3: ModelInjective, T4: ModelInjective, T5: ModelInjective, T6: ModelInjective, T7: ModelInjective, T8: ModelInjective, T9: ModelInjective, T10: ModelInjective, T11: ModelInjective, T12: ModelInjective, T13: ModelInjective> ModelInjective for (T0, T1, T2, T3, T4, T5, T6, T7, T8, T9, T10, T11, T12, T13) {
    proof fn lemma_model_injective(a: Self, b: Self) {
        T0::lemma_model_injective(a.0, b.0);
        T1::lemma_model_injective(a.1, b.1);
        T2::lemma_model_injective(a.2, b.2);
        T3::lemma_model_injective(a.3, b.3);
        T4::lemma_model_injective(a.4, b.4);
        T5::lemma_model_injective(a.5, b.5);
        T6::lemma_model_injective(a.6, b.6);
        T7::lemma_model_injective(a.7, b.7);
        T8::lemma_model_injective(a.8, b.8);
        T9::lemma_model_injective(a.9, b.9);
        T10::lemma_model_injective(a.10, b.10);
        T11::lemma_model_injective(a.11, b.11);
        T12::lemma_model_injective(a.12, b.12);
        T13::lemma_model_injective(a.13, b.13);
    }
}

impl<T0: ModelInjective, T1: ModelInjective, T2: ModelInjective, T3: ModelInjective, T4: ModelInjective, T5: ModelInjective, T6: ModelInjective, T7: ModelInjective, T8: ModelInjective, T9: ModelInjective, T10: ModelInjective, T11: ModelInjective, T12: ModelInjective, T13: ModelInjective, T14: ModelInjective> ModelInjective for (T0, T1, T2, T3, T4, T5, T6, T7, T8, T9, T10, T11, T12, T13, T14) {
    proof fn lemma_model_injective(a: Self, b: Self) {
        T0::lemma_model_injective(a.0, b.0);
        T1::lemma_model_injective(a.1, b.1);
        T2::lemma_model_injective(a.2, b.2);
        T3::lemma_model_injective(a.3, b.3);
        T4::lemma_model_injective(a.4, b.4);
        T5::lemma_model_injective(a.5, b.5);
        T6::lemma_model_injective(a.6, b.6);
        T7::lemma_model_injective(a.7, b.7);
        T8::lemma_model_injective(a.8, b.8);
        T9::lemma_model_injective(a.9, b.9);
        T10::lemma_model_injective(a.10, b.10);
        T11::lemma_model_injective(a.11, b.11);
        T12::lemma_model_injective(a.12, b.12);
        T13::lemma_model_injective(a.13, b.13);
        T14::lemma_model_injective(a.14, b.14);
    }
}

impl<T0: ModelInjective, T1: ModelInjective, T2: ModelInjective, T3: ModelInjective, T4: ModelInjective, T5: ModelInjective, T6: ModelInjective, T7: ModelInjective, T8: ModelInjective, T9: ModelInjective, T10: ModelInjective, T11: ModelInjective, T12: ModelInjective, T13: ModelInjective, T14: ModelInjective, T15: ModelInjective> ModelInjective for (T0, T1, T2, T3, T4, T5, T6, T7, T8, T9, T10, T11, T12, T13, T14, T15) {
    proof fn lemma_model_injective(a: Self, b: Self) {
        T0::lemma_model_injective(a.0, b.0);
        T1::lemma_model_injective(a.1, b.1);
        T2::lemma_model_injective(a.2, b.2);
        T3::lemma_model_injective(a.3, b.3);
        T4::lemma_model_injective(a.4, b.4);
        T5::lemma_model_injective(a.5, b.5);
        T6::lemma_model_injective(a.6, b.6);
        T7::lemma_model_injective(a.7, b.7);
        T8::lemma_model_injective(a.8, b.8);
        T9::lemma_model_injective(a.9, b.9);
        T10::lemma_model_injective(a.10, b.10);
        T11::lemma_model_injective(a.11, b.11);
        T12::lemma_model_injective(a.12, b.12);
        T13::lemma_model_injective(a.13, b.13);
        T14::lemma_model_injective(a.14, b.14);
        T15::lemma_model_injective(a.15, b.15);
    }
}


} // verus!
