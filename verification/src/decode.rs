//! Reading values back from bytes.
use vstd::prelude::*;
use crate::big_endian::{be_value, lemma_be_value_bound, lemma_pow256_values, lemma_usize_width, read_be, to_signed, usize_width, usize_width_exec};
use crate::input::ByteIter;
use crate::model::{models, Model};
use std::marker::PhantomData;
use std::rc::Rc;
use std::collections::HashMap;
use std::hash::Hash;
use std::string::FromUtf8Error;
use crate::entries::{entries_to_map, lemma_map_model_empty, lemma_map_model_insert, map_model};
use vstd::utf8::{decode_utf8, encode_utf8, encode_utf8_decode_utf8, valid_utf8};

verus! {

/// A type whose values can be read from bytes.
pub trait Decode: Model + Sized {
    /// What decoding the front of `bytes` gives: the model of the value and
    /// how many bytes it takes; `None` where decoding fails.
    spec fn spec_decode(bytes: Seq<u8>) -> Option<(Self::M, nat)>;

    /// Decoding takes no more bytes than there are.
    proof fn lemma_decode_len(bytes: Seq<u8>)
        ensures
            Self::spec_decode(bytes) matches Some((_, n)) ==> n <= bytes.len(),
    ;

    /// Reads one value from the front of `iter`.
    fn decode(iter: &mut ByteIter) -> (res: Self)
        requires
            Self::spec_decode(old(iter)@) is Some,
        ensures
            final(iter)@ == old(iter)@.skip(Self::spec_decode(old(iter)@).unwrap().1 as int),
            Self::well_behaved() ==> res.model() == Self::spec_decode(old(iter)@).unwrap().0,
    ;
}

impl Decode for u8 {
    /// Big-endian, in as many bytes as the type has.
    open spec fn spec_decode(bytes: Seq<u8>) -> Option<(u8, nat)> {
        if bytes.len() < 1 {
            None
        } else {
            Some((be_value(bytes.take(1 as int)) as u8, 1))
        }
    }

    proof fn lemma_decode_len(bytes: Seq<u8>) {
    }

    fn decode(iter: &mut ByteIter) -> (res: Self) {
        proof {
            lemma_pow256_values();
        }
        let width: usize = 1;
        let v = read_be(iter, width);
        proof {
            lemma_be_value_bound(old(iter)@.take(1 as int));
        }
        v as u8
    }
}

impl Decode for u16 {
    /// Big-endian, in as many bytes as the type has.
    open spec fn spec_decode(bytes: Seq<u8>) -> Option<(u16, nat)> {
        if bytes.len() < 2 {
            None
        } else {
            Some((be_value(bytes.take(2 as int)) as u16, 2))
        }
    }

    proof fn lemma_decode_len(bytes: Seq<u8>) {
    }

    fn decode(iter: &mut ByteIter) -> (res: Self) {
        proof {
            lemma_pow256_values();
        }
        let width: usize = 2;
        let v = read_be(iter, width);
        proof {
            lemma_be_value_bound(old(iter)@.take(2 as int));
        }
        v as u16
    }
}

impl Decode for u32 {
    /// Big-endian, in as many bytes as the type has.
    open spec fn spec_decode(bytes: Seq<u8>) -> Option<(u32, nat)> {
        if bytes.len() < 4 {
            None
        } else {
            Some((be_value(bytes.take(4 as int)) as u32, 4))
        }
    }

    proof fn lemma_decode_len(bytes: Seq<u8>) {
    }

    fn decode(iter: &mut ByteIter) -> (res: Self) {
        proof {
            lemma_pow256_values();
        }
        let width: usize = 4;
        let v = read_be(iter, width);
        proof {
            lemma_be_value_bound(old(iter)@.take(4 as int));
        }
        v as u32
    }
}

impl Decode for u64 {
    /// Big-endian, in as many bytes as the type has.
    open spec fn spec_decode(bytes: Seq<u8>) -> Option<(u64, nat)> {
        if bytes.len() < 8 {
            None
        } else {
            Some((be_value(bytes.take(8 as int)) as u64, 8))
        }
    }

    proof fn lemma_decode_len(bytes: Seq<u8>) {
    }

    fn decode(iter: &mut ByteIter) -> (res: Self) {
        proof {
            lemma_pow256_values();
        }
        let width: usize = 8;
        let v = read_be(iter, width);
        proof {
            lemma_be_value_bound(old(iter)@.take(8 as int));
        }
        v as u64
    }
}

impl Decode for u128 {
    /// Big-endian, in as many bytes as the type has.
    open spec fn spec_decode(bytes: Seq<u8>) -> Option<(u128, nat)> {
        if bytes.len() < 16 {
            None
        } else {
            Some((be_value(bytes.take(16 as int)) as u128, 16))
        }
    }

    proof fn lemma_decode_len(bytes: Seq<u8>) {
    }

    fn decode(iter: &mut ByteIter) -> (res: Self) {
        proof {
            lemma_pow256_values();
        }
        let width: usize = 16;
        let v = read_be(iter, width);
        proof {
            lemma_be_value_bound(old(iter)@.take(16 as int));
        }
        v as u128
    }
}

impl Decode for usize {
    /// Big-endian, in as many bytes as the type has.
    open spec fn spec_decode(bytes: Seq<u8>) -> Option<(usize, nat)> {
        if bytes.len() < usize_width() {
            None
        } else {
            Some((be_value(bytes.take(usize_width() as int)) as usize, usize_width()))
        }
    }

    proof fn lemma_decode_len(bytes: Seq<u8>) {
    }

    fn decode(iter: &mut ByteIter) -> (res: Self) {
        proof {
            lemma_usize_width();
        }
        let width: usize = usize_width_exec();
        let v = read_be(iter, width);
        proof {
            lemma_be_value_bound(old(iter)@.take(usize_width() as int));
        }
        v as usize
    }
}

impl Decode for i8 {
    /// Two's complement, big-endian, in as many bytes as the type has.
    open spec fn spec_decode(bytes: Seq<u8>) -> Option<(i8, nat)> {
        if bytes.len() < 1 {
            None
        } else {
            Some((to_signed(be_value(bytes.take(1 as int)), 1) as i8, 1))
        }
    }

    proof fn lemma_decode_len(bytes: Seq<u8>) {
    }

    fn decode(iter: &mut ByteIter) -> (res: Self) {
        proof {
            lemma_pow256_values();
        }
        let width: usize = 1;
        let v = read_be(iter, width);
        proof {
            lemma_be_value_bound(old(iter)@.take(1 as int));
        }
        if v < 0x80 {
            v as i8
        } else {
            (v as i128 - 0x100) as i8
        }
    }
}

impl Decode for i16 {
    /// Two's complement, big-endian, in as many bytes as the type has.
    open spec fn spec_decode(bytes: Seq<u8>) -> Option<(i16, nat)> {
        if bytes.len() < 2 {
            None
        } else {
            Some((to_signed(be_value(bytes.take(2 as int)), 2) as i16, 2))
        }
    }

    proof fn lemma_decode_len(bytes: Seq<u8>) {
    }

    fn decode(iter: &mut ByteIter) -> (res: Self) {
        proof {
            lemma_pow256_values();
        }
        let width: usize = 2;
        let v = read_be(iter, width);
        proof {
            lemma_be_value_bound(old(iter)@.take(2 as int));
        }
        if v < 0x8000 {
            v as i16
        } else {
            (v as i128 - 0x10000) as i16
        }
    }
}

impl Decode for i32 {
    /// Two's complement, big-endian, in as many bytes as the type has.
    open spec fn spec_decode(bytes: Seq<u8>) -> Option<(i32, nat)> {
        if bytes.len() < 4 {
            None
        } else {
            Some((to_signed(be_value(bytes.take(4 as int)), 4) as i32, 4))
        }
    }

    proof fn lemma_decode_len(bytes: Seq<u8>) {
    }

    fn decode(iter: &mut ByteIter) -> (res: Self) {
        proof {
            lemma_pow256_values();
        }
        let width: usize = 4;
        let v = read_be(iter, width);
        proof {
            lemma_be_value_bound(old(iter)@.take(4 as int));
        }
        if v < 0x80000000 {
            v as i32
        } else {
            (v as i128 - 0x100000000) as i32
        }
    }
}

impl Decode for i64 {
    /// Two's complement, big-endian, in as many bytes as the type has.
    open spec fn spec_decode(bytes: Seq<u8>) -> Option<(i64, nat)> {
        if bytes.len() < 8 {
            None
        } else {
            Some((to_signed(be_value(bytes.take(8 as int)), 8) as i64, 8))
        }
    }

    proof fn lemma_decode_len(bytes: Seq<u8>) {
    }

    fn decode(iter: &mut ByteIter) -> (res: Self) {
        proof {
            lemma_pow256_values();
        }
        let width: usize = 8;
        let v = read_be(iter, width);
        proof {
            lemma_be_value_bound(old(iter)@.take(8 as int));
        }
        if v < 0x8000000000000000 {
            v as i64
        } else {
            (v as i128 - 0x10000000000000000) as i64
        }
    }
}

impl Decode for i128 {
    /// Two's complement, big-endian, in as many bytes as the type has.
    open spec fn spec_decode(bytes: Seq<u8>) -> Option<(i128, nat)> {
        if bytes.len() < 16 {
            None
        } else {
            Some((to_signed(be_value(bytes.take(16 as int)), 16) as i128, 16))
        }
    }

    proof fn lemma_decode_len(bytes: Seq<u8>) {
    }

    fn decode(iter: &mut ByteIter) -> (res: Self) {
        proof {
            lemma_pow256_values();
        }
        let width: usize = 16;
        let v = read_be(iter, width);
        proof {
            lemma_be_value_bound(old(iter)@.take(16 as int));
        }
        if v < 0x8000_0000_0000_0000_0000_0000_0000_0000 {
            v as i128
        } else {
            (v - 0x8000_0000_0000_0000_0000_0000_0000_0000) as i128 + i128::MIN
        }
    }
}

impl Decode for isize {
    /// Two's complement, big-endian, in as many bytes as the type has.
    open spec fn spec_decode(bytes: Seq<u8>) -> Option<(isize, nat)> {
        if bytes.len() < usize_width() {
            None
        } else {
            Some((to_signed(be_value(bytes.take(usize_width() as int)), usize_width()) as isize, usize_width()))
        }
    }

    proof fn lemma_decode_len(bytes: Seq<u8>) {
    }

    fn decode(iter: &mut ByteIter) -> (res: Self) {
        proof {
            lemma_usize_width();
        }
        let width: usize = usize_width_exec();
        let v = read_be(iter, width);
        proof {
            lemma_be_value_bound(old(iter)@.take(usize_width() as int));
        }
        if v < (isize::MAX as u128) + 1 {
            v as isize
        } else {
            (v as i128 - usize::MAX as i128 - 1) as isize
        }
    }
}


impl Decode for bool {
    /// Any byte but `0` stands for `true`.
    open spec fn spec_decode(bytes: Seq<u8>) -> Option<(bool, nat)> {
        if bytes.len() < 1 {
            None
        } else {
            Some((bytes[0] != 0, 1))
        }
    }

    proof fn lemma_decode_len(bytes: Seq<u8>) {
    }

    fn decode(iter: &mut ByteIter) -> (res: Self) {
        iter.next().unwrap() != 0
    }
}

impl<T: Decode> Decode for Option<T> {
    /// A `bool` that says whether a value follows, then the value.
    open spec fn spec_decode(bytes: Seq<u8>) -> Option<(Option<T::M>, nat)> {
        match bool::spec_decode(bytes) {
            None => None,
            Some((false, n)) => Some((None, n)),
            Some((true, n)) => match T::spec_decode(bytes.skip(n as int)) {
                None => None,
                Some((v, k)) => Some((Some(v), n + k)),
            },
        }
    }

    proof fn lemma_decode_len(bytes: Seq<u8>) {
        if bytes.len() >= 1 {
            T::lemma_decode_len(bytes.skip(1));
        }
    }

    fn decode(iter: &mut ByteIter) -> (res: Self) {
        let ghost start = iter@;
        if bool::decode(iter) {
            proof {
                T::lemma_decode_len(start.skip(1));
            }
            let v = T::decode(iter);
            assert(iter@ =~= start.skip(Self::spec_decode(start).unwrap().1 as int));
            Some(v)
        } else {
            None
        }
    }
}

impl<T: Decode, E: Decode> Decode for Result<T, E> {
    /// What `Option<T>` decodes: a `bool`, then the value where it is `true`;
    /// where it is `false`, the error follows.
    open spec fn spec_decode(bytes: Seq<u8>) -> Option<(Result<T::M, E::M>, nat)> {
        match bool::spec_decode(bytes) {
            None => None,
            Some((true, n)) => match T::spec_decode(bytes.skip(n as int)) {
                None => None,
                Some((v, k)) => Some((Ok(v), n + k)),
            },
            Some((false, n)) => match E::spec_decode(bytes.skip(n as int)) {
                None => None,
                Some((e, k)) => Some((Err(e), n + k)),
            },
        }
    }

    proof fn lemma_decode_len(bytes: Seq<u8>) {
        if bytes.len() >= 1 {
            T::lemma_decode_len(bytes.skip(1));
            E::lemma_decode_len(bytes.skip(1));
        }
    }

    fn decode(iter: &mut ByteIter) -> (res: Self) {
        let ghost start = iter@;
        proof {
            T::lemma_decode_len(start.skip(1));
            E::lemma_decode_len(start.skip(1));
        }
        if bool::decode(iter) {
            let v = T::decode(iter);
            assert(iter@ =~= start.skip(Self::spec_decode(start).unwrap().1 as int));
            Ok(v)
        } else {
            let e = E::decode(iter);
            assert(iter@ =~= start.skip(Self::spec_decode(start).unwrap().1 as int));
            Err(e)
        }
    }
}

impl<T> Decode for PhantomData<T> {
    /// Takes no bytes.
    open spec fn spec_decode(bytes: Seq<u8>) -> Option<((), nat)> {
        Some(((), 0))
    }

    proof fn lemma_decode_len(bytes: Seq<u8>) {
    }

    fn decode(iter: &mut ByteIter) -> (res: Self) {
        assert(iter@ =~= iter@.skip(0));
        PhantomData
    }
}

impl<T: Decode> Decode for Box<T> {
    open spec fn spec_decode(bytes: Seq<u8>) -> Option<(T::M, nat)> {
        T::spec_decode(bytes)
    }

    proof fn lemma_decode_len(bytes: Seq<u8>) {
        T::lemma_decode_len(bytes);
    }

    fn decode(iter: &mut ByteIter) -> (res: Self) {
        Box::new(T::decode(iter))
    }
}

impl<T: Decode> Decode for Rc<T> {
    open spec fn spec_decode(bytes: Seq<u8>) -> Option<(T::M, nat)> {
        T::spec_decode(bytes)
    }

    proof fn lemma_decode_len(bytes: Seq<u8>) {
        T::lemma_decode_len(bytes);
    }

    fn decode(iter: &mut ByteIter) -> (res: Self) {
        Rc::new(T::decode(iter))
    }
}

/// What decoding `count` values one after the other from the front of
/// `bytes` gives: their models and how many bytes they take together.
pub open spec fn decode_all<T: Decode>(bytes: Seq<u8>, count: nat) -> Option<(Seq<T::M>, nat)>
    decreases count,
{
    if count == 0 {
        Some((Seq::empty(), 0))
    } else {
        match decode_all::<T>(bytes, (count - 1) as nat) {
            None => None,
            Some((ms, n)) => match T::spec_decode(bytes.skip(n as int)) {
                None => None,
                Some((m, k)) => Some((ms.push(m), n + k)),
            },
        }
    }
}

/// Decoding `count` values gives `count` models and takes no more bytes than there are.
pub proof fn lemma_decode_all_len<T: Decode>(bytes: Seq<u8>, count: nat)
    ensures
        decode_all::<T>(bytes, count) matches Some((ms, n)) ==> ms.len() == count && n <= bytes.len(),
    decreases count,
{
    if count > 0 {
        lemma_decode_all_len::<T>(bytes, (count - 1) as nat);
        if let Some((ms, n)) = decode_all::<T>(bytes, (count - 1) as nat) {
            T::lemma_decode_len(bytes.skip(n as int));
        }
    }
}

/// Where `count` values decode, so do the first `i` of them.
pub proof fn lemma_decode_all_prefix<T: Decode>(bytes: Seq<u8>, i: nat, count: nat)
    requires
        i <= count,
        decode_all::<T>(bytes, count) is Some,
    ensures
        decode_all::<T>(bytes, i) is Some,
    decreases count,
{
    if i < count {
        lemma_decode_all_prefix::<T>(bytes, i, (count - 1) as nat);
    }
}

/// Reads `count` values, one after the other.
fn decode_items<T: Decode>(iter: &mut ByteIter, count: usize) -> (res: Vec<T>)
    requires
        decode_all::<T>(old(iter)@, count as nat) is Some,
    ensures
        final(iter)@ == old(iter)@.skip(decode_all::<T>(old(iter)@, count as nat).unwrap().1 as int),
        res@.len() == count,
        T::well_behaved() ==> models(res@) == decode_all::<T>(old(iter)@, count as nat).unwrap().0,
{
    let ghost start = iter@;
    let mut items: Vec<T> = Vec::new();
    let mut i: usize = 0;
    assert(start.skip(0) =~= start);
    assert(models(items@) =~= Seq::<T::M>::empty());
    while i < count
        invariant
            i <= count,
            items@.len() == i,
            decode_all::<T>(start, count as nat) is Some,
            decode_all::<T>(start, i as nat) is Some,
            iter@ == start.skip(decode_all::<T>(start, i as nat).unwrap().1 as int),
            T::well_behaved() ==> models(items@) == decode_all::<T>(start, i as nat).unwrap().0,
        decreases count - i,
    {
        proof {
            lemma_decode_all_prefix::<T>(start, (i + 1) as nat, count as nat);
            lemma_decode_all_len::<T>(start, i as nat);
        }
        let ghost n = decode_all::<T>(start, i as nat).unwrap().1;
        let ghost before = items@;
        let item = T::decode(iter);
        items.push(item);
        proof {
            let k = T::spec_decode(start.skip(n as int)).unwrap().1;
            T::lemma_decode_len(start.skip(n as int));
            assert(iter@ =~= start.skip((n + k) as int));
            if T::well_behaved() {
                assert(models(items@) =~= models(before).push(item.model()));
            }
        }
        i = i + 1;
    }
    items
}

/// The slice that holds the items of `items`, in order.
#[verifier::external_body]
fn boxed_slice<T>(items: Vec<T>) -> (res: Box<[T]>)
    ensures
        res@ == items@,
{
    items.into_boxed_slice()
}

/// `<[T; N]>::try_from` on a vector: the array of its items where there
/// are exactly `N` of them, else the vector back.
#[verifier::external_body]
fn array_from_vec<T, const N: usize>(items: Vec<T>) -> (res: Result<[T; N], Vec<T>>)
    ensures
        res is Ok <==> items@.len() == N,
        res matches Ok(a) ==> a@ == items@,
        res matches Err(v) ==> v@ == items@,
{
    <[T; N]>::try_from(items)
}

/// What decoding a `usize` count and then that many values gives.
pub open spec fn decode_counted<T: Decode>(bytes: Seq<u8>) -> Option<(Seq<T::M>, nat)> {
    match usize::spec_decode(bytes) {
        None => None,
        Some((count, w)) => match decode_all::<T>(bytes.skip(w as int), count as nat) {
            None => None,
            Some((ms, n)) => Some((ms, w + n)),
        },
    }
}

pub proof fn lemma_decode_counted_len<T: Decode>(bytes: Seq<u8>)
    ensures
        decode_counted::<T>(bytes) matches Some((_, n)) ==> n <= bytes.len(),
{
    lemma_usize_width();
    if bytes.len() >= usize_width() {
        let count = usize::spec_decode(bytes).unwrap().0;
        lemma_decode_all_len::<T>(bytes.skip(usize_width() as int), count as nat);
    }
}

/// Reads a `usize` count and then that many values.
fn decode_counted_items<T: Decode>(iter: &mut ByteIter) -> (res: Vec<T>)
    requires
        decode_counted::<T>(old(iter)@) is Some,
    ensures
        final(iter)@ == old(iter)@.skip(decode_counted::<T>(old(iter)@).unwrap().1 as int),
        T::well_behaved() ==> models(res@) == decode_counted::<T>(old(iter)@).unwrap().0,
{
    let ghost start = iter@;
    proof {
        lemma_usize_width();
    }
    let count = usize::decode(iter);
    let items = decode_items::<T>(iter, count);
    proof {
        let w = usize_width() as int;
        let n = decode_all::<T>(start.skip(w), count as nat).unwrap().1;
        lemma_decode_all_len::<T>(start.skip(w), count as nat);
        assert(iter@ =~= start.skip(w + n));
    }
    items
}

impl<T: Decode> Decode for Box<[T]> {
    /// A `usize` count, then that many values.
    open spec fn spec_decode(bytes: Seq<u8>) -> Option<(Seq<T::M>, nat)> {
        decode_counted::<T>(bytes)
    }

    proof fn lemma_decode_len(bytes: Seq<u8>) {
        lemma_decode_counted_len::<T>(bytes);
    }

    fn decode(iter: &mut ByteIter) -> (res: Self) {
        boxed_slice(decode_counted_items::<T>(iter))
    }
}

impl<T: Decode> Decode for Vec<T> {
    /// A `usize` count, then that many values.
    open spec fn spec_decode(bytes: Seq<u8>) -> Option<(Seq<T::M>, nat)> {
        decode_counted::<T>(bytes)
    }

    proof fn lemma_decode_len(bytes: Seq<u8>) {
        lemma_decode_counted_len::<T>(bytes);
    }

    fn decode(iter: &mut ByteIter) -> (res: Self) {
        Box::<[T]>::decode(iter).into_vec()
    }
}

impl<T: Decode, const N: usize> Decode for [T; N] {
    /// `N` values one after the other, with no count before them.
    open spec fn spec_decode(bytes: Seq<u8>) -> Option<(Seq<T::M>, nat)> {
        decode_all::<T>(bytes, N as nat)
    }

    proof fn lemma_decode_len(bytes: Seq<u8>) {
        lemma_decode_all_len::<T>(bytes, N as nat);
    }

    fn decode(iter: &mut ByteIter) -> (res: Self) {
        let ghost start = iter@;
        let items = decode_items::<T>(iter, N);
        proof {
            lemma_decode_all_len::<T>(start, N as nat);
        }
        array_from_vec::<T, N>(items).ok().unwrap()
    }
}

impl<K: Decode + Eq + Hash, V: Decode> Decode for HashMap<K, V> {
    /// A `usize` count, then that many key and value pairs; where a key
    /// occurs more than once, its last pair stands.
    open spec fn spec_decode(bytes: Seq<u8>) -> Option<(Map<K::M, V::M>, nat)> {
        match decode_counted::<(K, V)>(bytes) {
            None => None,
            Some((entries, n)) => Some((entries_to_map(entries), n)),
        }
    }

    proof fn lemma_decode_len(bytes: Seq<u8>) {
        lemma_decode_counted_len::<(K, V)>(bytes);
    }

    fn decode(iter: &mut ByteIter) -> (res: Self) {
        let ghost start = iter@;
        proof {
            lemma_usize_width();
        }
        let count = usize::decode(iter);
        let ghost body = start.skip(usize_width() as int);
        let mut map: HashMap<K, V> = HashMap::new();
        proof {
            lemma_map_model_empty::<K, V>();
            assert(body.skip(0) =~= body);
        }
        let mut i: usize = 0;
        while i < count
            invariant
                i <= count,
                decode_all::<(K, V)>(body, count as nat) is Some,
                decode_all::<(K, V)>(body, i as nat) is Some,
                iter@ == body.skip(decode_all::<(K, V)>(body, i as nat).unwrap().1 as int),
                Self::well_behaved() ==> map_model(map@) == entries_to_map(
                    decode_all::<(K, V)>(body, i as nat).unwrap().0,
                ),
            decreases count - i,
        {
            proof {
                lemma_decode_all_prefix::<(K, V)>(body, (i + 1) as nat, count as nat);
                lemma_decode_all_len::<(K, V)>(body, i as nat);
            }
            let ghost n = decode_all::<(K, V)>(body, i as nat).unwrap().1;
            let ghost before = map@;
            let (k, v) = <(K, V)>::decode(iter);
            proof {
                let entry = <(K, V)>::spec_decode(body.skip(n as int)).unwrap();
                <(K, V)>::lemma_decode_len(body.skip(n as int));
                assert(iter@ =~= body.skip((n + entry.1) as int));
                if Self::well_behaved() {
                    lemma_map_model_insert(before, k, v);
                }
            }
            let ghost km = k.model();
            let ghost vm = v.model();
            map.insert(k, v);
            proof {
                if Self::well_behaved() {
                    let ms = decode_all::<(K, V)>(body, i as nat).unwrap().0;
                    let ms2 = decode_all::<(K, V)>(body, (i + 1) as nat).unwrap().0;
                    assert(ms2 == ms.push((km, vm)));
                    assert(ms2.drop_last() =~= ms);
                    assert(map@ == before.insert(k, v));
                }
            }
            i = i + 1;
        }
        proof {
            let n = decode_all::<(K, V)>(body, count as nat).unwrap().1;
            lemma_decode_all_len::<(K, V)>(body, count as nat);
            assert(iter@ =~= start.skip((usize_width() + n) as int));
        }
        map
    }
}

/// The error that `String::from_utf8` gives for bytes that are not UTF-8.
#[verifier::external_type_specification]
#[verifier::external_body]
pub struct ExFromUtf8Error(FromUtf8Error);

/// `String::from_utf8`: the string whose UTF-8 bytes are `bytes`, or an
/// error where they are not UTF-8.
#[verifier::external_body]
fn string_from_utf8(bytes: Vec<u8>) -> (res: Result<String, FromUtf8Error>)
    ensures
        res is Ok <==> valid_utf8(bytes@),
        res matches Ok(s) ==> encode_utf8(s@) == bytes@,
{
    String::from_utf8(bytes)
}

impl Decode for String {
    /// A `Vec<u8>` of UTF-8 bytes; decoding fails where they are not UTF-8.
    open spec fn spec_decode(bytes: Seq<u8>) -> Option<(Seq<char>, nat)> {
        match Vec::<u8>::spec_decode(bytes) {
            None => None,
            Some((utf8, n)) => if valid_utf8(utf8) {
                Some((decode_utf8(utf8), n))
            } else {
                None
            },
        }
    }

    proof fn lemma_decode_len(bytes: Seq<u8>) {
        Vec::<u8>::lemma_decode_len(bytes);
    }

    fn decode(iter: &mut ByteIter) -> (res: Self) {
        let bytes = Vec::<u8>::decode(iter);
        assert(models(bytes@) =~= bytes@);
        let s = string_from_utf8(bytes).unwrap();
        proof {
            encode_utf8_decode_utf8(s@);
        }
        s
    }
}

impl Decode for () {
    /// Takes no bytes.
    open spec fn spec_decode(bytes: Seq<u8>) -> Option<((), nat)> {
        Some(((), 0))
    }

    proof fn lemma_decode_len(bytes: Seq<u8>) {
    }

    fn decode(iter: &mut ByteIter) -> (res: Self) {
        assert(iter@ =~= iter@.skip(0));
    }
}

impl<T0: Decode> Decode for (T0,) {
    /// The first item, then the tuple of the others.
    open spec fn spec_decode(bytes: Seq<u8>) -> Option<(Self::M, nat)> {
        match T0::spec_decode(bytes) {
            None => None,
            Some((first, n0)) => match <() as Decode>::spec_decode(bytes.skip(n0 as int)) {
                None => None,
                Some((rest, n1)) => Some(((first,), n0 + n1)),
            },
        }
    }

    proof fn lemma_decode_len(bytes: Seq<u8>) {
        T0::lemma_decode_len(bytes);
        if let Some((_, n0)) = T0::spec_decode(bytes) {
            <() as Decode>::lemma_decode_len(bytes.skip(n0 as int));
        }
    }

    fn decode(iter: &mut ByteIter) -> (res: Self) {
        let ghost start = iter@;
        proof {
            T0::lemma_decode_len(start);
        }
        let a0 = T0::decode(iter);
        let ghost n0 = T0::spec_decode(start).unwrap().1;
        proof {
            <() as Decode>::lemma_decode_len(start.skip(n0 as int));
        }
        assert(iter@ =~= start.skip(Self::spec_decode(start).unwrap().1 as int));
        (a0,)
    }
}

impl<T0: Decode, T1: Decode> Decode for (T0, T1) {
    /// The first item, then the tuple of the others.
    open spec fn spec_decode(bytes: Seq<u8>) -> Option<(Self::M, nat)> {
        match T0::spec_decode(bytes) {
            None => None,
            Some((first, n0)) => match <(T1,) as Decode>::spec_decode(bytes.skip(n0 as int)) {
                None => None,
                Some((rest, n1)) => Some(((first, rest.0), n0 + n1)),
            },
        }
    }

    proof fn lemma_decode_len(bytes: Seq<u8>) {
        T0::lemma_decode_len(bytes);
        if let Some((_, n0)) = T0::spec_decode(bytes) {
            <(T1,) as Decode>::lemma_decode_len(bytes.skip(n0 as int));
        }
    }

    fn decode(iter: &mut ByteIter) -> (res: Self) {
        let ghost start = iter@;
        proof {
            T0::lemma_decode_len(start);
        }
        let a0 = T0::decode(iter);
        let ghost n0 = T0::spec_decode(start).unwrap().1;
        proof {
            <(T1,) as Decode>::lemma_decode_len(start.skip(n0 as int));
        }
        let (a1,) = <(T1,) as Decode>::decode(iter);
        assert(iter@ =~= start.skip(Self::spec_decode(start).unwrap().1 as int));
        (a0, a1)
    }
}

impl<T0: Decode, T1: Decode, T2: Decode> Decode for (T0, T1, T2) {
    /// The first item, then the tuple of the others.
    open spec fn spec_decode(bytes: Seq<u8>) -> Option<(Self::M, nat)> {
        match T0::spec_decode(bytes) {
            None => None,
            Some((first, n0)) => match <(T1, T2) as Decode>::spec_decode(bytes.skip(n0 as int)) {
                None => None,
                Some((rest, n1)) => Some(((first, rest.0, rest.1), n0 + n1)),
            },
        }
    }

    proof fn lemma_decode_len(bytes: Seq<u8>) {
        T0::lemma_decode_len(bytes);
        if let Some((_, n0)) = T0::spec_decode(bytes) {
            <(T1, T2) as Decode>::lemma_decode_len(bytes.skip(n0 as int));
        }
    }

    fn decode(iter: &mut ByteIter) -> (res: Self) {
        let ghost start = iter@;
        proof {
            T0::lemma_decode_len(start);
        }
        let a0 = T0::decode(iter);
        let ghost n0 = T0::spec_decode(start).unwrap().1;
        proof {
            <(T1, T2) as Decode>::lemma_decode_len(start.skip(n0 as int));
        }
        let (a1, a2) = <(T1, T2) as Decode>::decode(iter);
        assert(iter@ =~= start.skip(Self::spec_decode(start).unwrap().1 as int));
        (a0, a1, a2)
    }
}

impl<T0: Decode, T1: Decode, T2: Decode, T3: Decode> Decode for (T0, T1, T2, T3) {
    /// The first item, then the tuple of the others.
    open spec fn spec_decode(bytes: Seq<u8>) -> Option<(Self::M, nat)> {
        match T0::spec_decode(bytes) {
            None => None,
            Some((first, n0)) => match <(T1, T2, T3) as Decode>::spec_decode(bytes.skip(n0 as int)) {
                None => None,
                Some((rest, n1)) => Some(((first, rest.0, rest.1, rest.2), n0 + n1)),
            },
        }
    }

    proof fn lemma_decode_len(bytes: Seq<u8>) {
        T0::lemma_decode_len(bytes);
        if let Some((_, n0)) = T0::spec_decode(bytes) {
            <(T1, T2, T3) as Decode>::lemma_decode_len(bytes.skip(n0 as int));
        }
    }

    fn decode(iter: &mut ByteIter) -> (res: Self) {
        let ghost start = iter@;
        proof {
            T0::lemma_decode_len(start);
        }
        let a0 = T0::decode(iter);
        let ghost n0 = T0::spec_decode(start).unwrap().1;
        proof {
            <(T1, T2, T3) as Decode>::lemma_decode_len(start.skip(n0 as int));
        }
        let (a1, a2, a3) = <(T1, T2, T3) as Decode>::decode(iter);
        assert(iter@ =~= start.skip(Self::spec_decode(start).unwrap().1 as int));
        (a0, a1, a2, a3)
    }
}

impl<T0: Decode, T1: Decode, T2: Decode, T3: Decode, T4: Decode> Decode for (T0, T1, T2, T3, T4) {
    /// The first item, then the tuple of the others.
    open spec fn spec_decode(bytes: Seq<u8>) -> Option<(Self::M, nat)> {
        match T0::spec_decode(bytes) {
            None => None,
            Some((first, n0)) => match <(T1, T2, T3, T4) as Decode>::spec_decode(bytes.skip(n0 as int)) {
                None => None,
                Some((rest, n1)) => Some(((first, rest.0, rest.1, rest.2, rest.3), n0 + n1)),
            },
        }
    }

    proof fn lemma_decode_len(bytes: Seq<u8>) {
        T0::lemma_decode_len(bytes);
        if let Some((_, n0)) = T0::spec_decode(bytes) {
            <(T1, T2, T3, T4) as Decode>::lemma_decode_len(bytes.skip(n0 as int));
        }
    }

    fn decode(iter: &mut ByteIter) -> (res: Self) {
        let ghost start = iter@;
        proof {
            T0::lemma_decode_len(start);
        }
        let a0 = T0::decode(iter);
        let ghost n0 = T0::spec_decode(start).unwrap().1;
        proof {
            <(T1, T2, T3, T4) as Decode>::lemma_decode_len(start.skip(n0 as int));
        }
        let (a1, a2, a3, a4) = <(T1, T2, T3, T4) as Decode>::decode(iter);
        assert(iter@ =~= start.skip(Self::spec_decode(start).unwrap().1 as int));
        (a0, a1, a2, a3, a4)
    }
}

impl<T0: Decode, T1: Decode, T2: Decode, T3: Decode, T4: Decode, T5: Decode> Decode for (T0, T1, T2, T3, T4, T5) {
    /// The first item, then the tuple of the others.
    open spec fn spec_decode(bytes: Seq<u8>) -> Option<(Self::M, nat)> {
        match T0::spec_decode(bytes) {
            None => None,
            Some((first, n0)) => match <(T1, T2, T3, T4, T5) as Decode>::spec_decode(bytes.skip(n0 as int)) {
                None => None,
                Some((rest, n1)) => Some(((first, rest.0, rest.1, rest.2, rest.3, rest.4), n0 + n1)),
            },
        }
    }

    proof fn lemma_decode_len(bytes: Seq<u8>) {
        T0::lemma_decode_len(bytes);
        if let Some((_, n0)) = T0::spec_decode(bytes) {
            <(T1, T2, T3, T4, T5) as Decode>::lemma_decode_len(bytes.skip(n0 as int));
        }
    }

    fn decode(iter: &mut ByteIter) -> (res: Self) {
        let ghost start = iter@;
        proof {
            T0::lemma_decode_len(start);
        }
        let a0 = T0::decode(iter);
        let ghost n0 = T0::spec_decode(start).unwrap().1;
        proof {
            <(T1, T2, T3, T4, T5) as Decode>::lemma_decode_len(start.skip(n0 as int));
        }
        let (a1, a2, a3, a4, a5) = <(T1, T2, T3, T4, T5) as Decode>::decode(iter);
        assert(iter@ =~= start.skip(Self::spec_decode(start).unwrap().1 as int));
        (a0, a1, a2, a3, a4, a5)
    }
}

impl<T0: Decode, T1: Decode, T2: Decode, T3: Decode, T4: Decode, T5: Decode, T6: Decode> Decode for (T0, T1, T2, T3, T4, T5, T6) {
    /// The first item, then the tuple of the others.
    open spec fn spec_decode(bytes: Seq<u8>) -> Option<(Self::M, nat)> {
        match T0::spec_decode(bytes) {
            None => None,
            Some((first, n0)) => match <(T1, T2, T3, T4, T5, T6) as Decode>::spec_decode(bytes.skip(n0 as int)) {
                None => None,
                Some((rest, n1)) => Some(((first, rest.0, rest.1, rest.2, rest.3, rest.4, rest.5), n0 + n1)),
            },
        }
    }

    proof fn lemma_decode_len(bytes: Seq<u8>) {
        T0::lemma_decode_len(bytes);
        if let Some((_, n0)) = T0::spec_decode(bytes) {
            <(T1, T2, T3, T4, T5, T6) as Decode>::lemma_decode_len(bytes.skip(n0 as int));
        }
    }

    fn decode(iter: &mut ByteIter) -> (res: Self) {
        let ghost start = iter@;
        proof {
            T0::lemma_decode_len(start);
        }
        let a0 = T0::decode(iter);
        let ghost n0 = T0::spec_decode(start).unwrap().1;
        proof {
            <(T1, T2, T3, T4, T5, T6) as Decode>::lemma_decode_len(start.skip(n0 as int));
        }
        let (a1, a2, a3, a4, a5, a6) = <(T1, T2, T3, T4, T5, T6) as Decode>::decode(iter);
        assert(iter@ =~= start.skip(Self::spec_decode(start).unwrap().1 as int));
        (a0, a1, a2, a3, a4, a5, a6)
    }
}

impl<T0: Decode, T1: Decode, T2: Decode, T3: Decode, T4: Decode, T5: Decode, T6: Decode, T7: Decode> Decode for (T0, T1, T2, T3, T4, T5, T6, T7) {
    /// The first item, then the tuple of the others.
    open spec fn spec_decode(bytes: Seq<u8>) -> Option<(Self::M, nat)> {
        match T0::spec_decode(bytes) {
            None => None,
            Some((first, n0)) => match <(T1, T2, T3, T4, T5, T6, T7) as Decode>::spec_decode(bytes.skip(n0 as int)) {
                None => None,
                Some((rest, n1)) => Some(((first, rest.0, rest.1, rest.2, rest.3, rest.4, rest.5, rest.6), n0 + n1)),
            },
        }
    }

    proof fn lemma_decode_len(bytes: Seq<u8>) {
        T0::lemma_decode_len(bytes);
        if let Some((_, n0)) = T0::spec_decode(bytes) {
            <(T1, T2, T3, T4, T5, T6, T7) as Decode>::lemma_decode_len(bytes.skip(n0 as int));
        }
    }

    fn decode(iter: &mut ByteIter) -> (res: Self) {
        let ghost start = iter@;
        proof {
            T0::lemma_decode_len(start);
        }
        let a0 = T0::decode(iter);
        let ghost n0 = T0::spec_decode(start).unwrap().1;
        proof {
            <(T1, T2, T3, T4, T5, T6, T7) as Decode>::lemma_decode_len(start.skip(n0 as int));
        }
        let (a1, a2, a3, a4, a5, a6, a7) = <(T1, T2, T3, T4, T5, T6, T7) as Decode>::decode(iter);
        assert(iter@ =~= start.skip(Self::spec_decode(start).unwrap().1 as int));
        (a0, a1, a2, a3, a4, a5, a6, a7)
    }
}

impl<T0: Decode, T1: Decode, T2: Decode, T3: Decode, T4: Decode, T5: Decode, T6: Decode, T7: Decode, T8: Decode> Decode for (T0, T1, T2, T3, T4, T5, T6, T7, T8) {
    /// The first item, then the tuple of the others.
    open spec fn spec_decode(bytes: Seq<u8>) -> Option<(Self::M, nat)> {
        match T0::spec_decode(bytes) {
            None => None,
            Some((first, n0)) => match <(T1, T2, T3, T4, T5, T6, T7, T8) as Decode>::spec_decode(bytes.skip(n0 as int)) {
                None => None,
                Some((rest, n1)) => Some(((first, rest.0, rest.1, rest.2, rest.3, rest.4, rest.5, rest.6, rest.7), n0 + n1)),
            },
        }
    }

    proof fn lemma_decode_len(bytes: Seq<u8>) {
        T0::lemma_decode_len(bytes);
        if let Some((_, n0)) = T0::spec_decode(bytes) {
            <(T1, T2, T3, T4, T5, T6, T7, T8) as Decode>::lemma_decode_len(bytes.skip(n0 as int));
        }
    }

    fn decode(iter: &mut ByteIter) -> (res: Self) {
        let ghost start = iter@;
        proof {
            T0::lemma_decode_len(start);
        }
        let a0 = T0::decode(iter);
        let ghost n0 = T0::spec_decode(start).unwrap().1;
        proof {
            <(T1, T2, T3, T4, T5, T6, T7, T8) as Decode>::lemma_decode_len(start.skip(n0 as int));
        }
        let (a1, a2, a3, a4, a5, a6, a7, a8) = <(T1, T2, T3, T4, T5, T6, T7, T8) as Decode>::decode(iter);
        assert(iter@ =~= start.skip(Self::spec_decode(start).unwrap().1 as int));
        (a0, a1, a2, a3, a4, a5, a6, a7, a8)
    }
}

impl<T0: Decode, T1: Decode, T2: Decode, T3: Decode, T4: Decode, T5: Decode, T6: Decode, T7: Decode, T8: Decode, T9: Decode> Decode for (T0, T1, T2, T3, T4, T5, T6, T7, T8, T9) {
    /// The first item, then the tuple of the others.
    open spec fn spec_decode(bytes: Seq<u8>) -> Option<(Self::M, nat)> {
        match T0::spec_decode(bytes) {
            None => None,
            Some((first, n0)) => match <(T1, T2, T3, T4, T5, T6, T7, T8, T9) as Decode>::spec_decode(bytes.skip(n0 as int)) {
                None => None,
                Some((rest, n1)) => Some(((first, rest.0, rest.1, rest.2, rest.3, rest.4, rest.5, rest.6, rest.7, rest.8), n0 + n1)),
            },
        }
    }

    proof fn lemma_decode_len(bytes: Seq<u8>) {
        T0::lemma_decode_len(bytes);
        if let Some((_, n0)) = T0::spec_decode(bytes) {
            <(T1, T2, T3, T4, T5, T6, T7, T8, T9) as Decode>::lemma_decode_len(bytes.skip(n0 as int));
        }
    }

    fn decode(iter: &mut ByteIter) -> (res: Self) {
        let ghost start = iter@;
        proof {
            T0::lemma_decode_len(start);
        }
        let a0 = T0::decode(iter);
        let ghost n0 = T0::spec_decode(start).unwrap().1;
        proof {
            <(T1, T2, T3, T4, T5, T6, T7, T8, T9) as Decode>::lemma_decode_len(start.skip(n0 as int));
        }
        let (a1, a2, a3, a4, a5, a6, a7, a8, a9) = <(T1, T2, T3, T4, T5, T6, T7, T8, T9) as Decode>::decode(iter);
        assert(iter@ =~= start.skip(Self::spec_decode(start).unwrap().1 as int));
        (a0, a1, a2, a3, a4, a5, a6, a7, a8, a9)
    }
}

impl<T0: Decode, T1: Decode, T2: Decode, T3: Decode, T4: Decode, T5: Decode, T6: Decode, T7: Decode, T8: Decode, T9: Decode, T10: Decode> Decode for (T0, T1, T2, T3, T4, T5, T6, T7, T8, T9, T10) {
    /// The first item, then the tuple of the others.
    open spec fn spec_decode(bytes: Seq<u8>) -> Option<(Self::M, nat)> {
        match T0::spec_decode(bytes) {
            None => None,
            Some((first, n0)) => match <(T1, T2, T3, T4, T5, T6, T7, T8, T9, T10) as Decode>::spec_decode(bytes.skip(n0 as int)) {
                None => None,
                Some((rest, n1)) => Some(((first, rest.0, rest.1, rest.2, rest.3, rest.4, rest.5, rest.6, rest.7, rest.8, rest.9), n0 + n1)),
            },
        }
    }

    proof fn lemma_decode_len(bytes: Seq<u8>) {
        T0::lemma_decode_len(bytes);
        if let Some((_, n0)) = T0::spec_decode(bytes) {
            <(T1, T2, T3, T4, T5, T6, T7, T8, T9, T10) as Decode>::lemma_decode_len(bytes.skip(n0 as int));
        }
    }

    fn decode(iter: &mut ByteIter) -> (res: Self) {
        let ghost start = iter@;
        proof {
            T0::lemma_decode_len(start);
        }
        let a0 = T0::decode(iter);
        let ghost n0 = T0::spec_decode(start).unwrap().1;
        proof {
            <(T1, T2, T3, T4, T5, T6, T7, T8, T9, T10) as Decode>::lemma_decode_len(start.skip(n0 as int));
        }
        let (a1, a2, a3, a4, a5, a6, a7, a8, a9, a10) = <(T1, T2, T3, T4, T5, T6, T7, T8, T9, T10) as Decode>::decode(iter);
        assert(iter@ =~= start.skip(Self::spec_decode(start).unwrap().1 as int));
        (a0, a1, a2, a3, a4, a5, a6, a7, a8, a9, a10)
    }
}

impl<T0: Decode, T1: Decode, T2: Decode, T3: Decode, T4: Decode, T5: Decode, T6: Decode, T7: Decode, T8: Decode, T9: Decode, T10: Decode, T11: Decode> Decode for (T0, T1, T2, T3, T4, T5, T6, T7, T8, T9, T10, T11) {
    /// The first item, then the tuple of the others.
    open spec fn spec_decode(bytes: Seq<u8>) -> Option<(Self::M, nat)> {
        match T0::spec_decode(bytes) {
            None => None,
            Some((first, n0)) => match <(T1, T2, T3, T4, T5, T6, T7, T8, T9, T10, T11) as Decode>::spec_decode(bytes.skip(n0 as int)) {
                None => None,
                Some((rest, n1)) => Some(((first, rest.0, rest.1, rest.2, rest.3, rest.4, rest.5, rest.6, rest.7, rest.8, rest.9, rest.10), n0 + n1)),
            },
        }
    }

    proof fn lemma_decode_len(bytes: Seq<u8>) {
        T0::lemma_decode_len(bytes);
        if let Some((_, n0)) = T0::spec_decode(bytes) {
            <(T1, T2, T3, T4, T5, T6, T7, T8, T9, T10, T11) as Decode>::lemma_decode_len(bytes.skip(n0 as int));
        }
    }

    fn decode(iter: &mut ByteIter) -> (res: Self) {
        let ghost start = iter@;
        proof {
            T0::lemma_decode_len(start);
        }
        let a0 = T0::decode(iter);
        let ghost n0 = T0::spec_decode(start).unwrap().1;
        proof {
            <(T1, T2, T3, T4, T5, T6, T7, T8, T9, T10, T11) as Decode>::lemma_decode_len(start.skip(n0 as int));
        }
        let (a1, a2, a3, a4, a5, a6, a7, a8, a9, a10, a11) = <(T1, T2, T3, T4, T5, T6, T7, T8, T9, T10, T11) as Decode>::decode(iter);
        assert(iter@ =~= start.skip(Self::spec_decode(start).unwrap().1 as int));
        (a0, a1, a2, a3, a4, a5, a6, a7, a8, a9, a10, a11)
    }
}

impl<T0: Decode, T1: Decode, T2: Decode, T3: Decode, T4: Decode, T5: Decode, T6: Decode, T7: Decode, T8: Decode, T9: Decode, T10: Decode, T11: Decode, T12: Decode> Decode for (T0, T1, T2, T3, T4, T5, T6, T7, T8, T9, T10, T11, T12) {
    /// The first item, then the tuple of the others.
    open spec fn spec_decode(bytes: Seq<u8>) -> Option<(Self::M, nat)> {
        match T0::spec_decode(bytes) {
            None => None,
            Some((first, n0)) => match <(T1, T2, T3, T4, T5, T6, T7, T8, T9, T10, T11, T12) as Decode>::spec_decode(bytes.skip(n0 as int)) {
                None => None,
                Some((rest, n1)) => Some(((first, rest.0, rest.1, rest.2, rest.3, rest.4, rest.5, rest.6, rest.7, rest.8, rest.9, rest.10, rest.11), n0 + n1)),
            },
        }
    }

    proof fn lemma_decode_len(bytes: Seq<u8>) {
        T0::lemma_decode_len(bytes);
        if let Some((_, n0)) = T0::spec_decode(bytes) {
            <(T1, T2, T3, T4, T5, T6, T7, T8, T9, T10, T11, T12) as Decode>::lemma_decode_len(bytes.skip(n0 as int));
        }
    }

    fn decode(iter: &mut ByteIter) -> (res: Self) {
        let ghost start = iter@;
        proof {
            T0::lemma_decode_len(start);
        }
        let a0 = T0::decode(iter);
        let ghost n0 = T0::spec_decode(start).unwrap().1;
        proof {
            <(T1, T2, T3, T4, T5, T6, T7, T8, T9, T10, T11, T12) as Decode>::lemma_decode_len(start.skip(n0 as int));
        }
        let (a1, a2, a3, a4, a5, a6, a7, a8, a9, a10, a11, a12) = <(T1, T2, T3, T4, T5, T6, T7, T8, T9, T10, T11, T12) as Decode>::decode(iter);
        assert(iter@ =~= start.skip(Self::spec_decode(start).unwrap().1 as int));
        (a0, a1, a2, a3, a4, a5, a6, a7, a8, a9, a10, a11, a12)
    }
}

impl<T0: Decode, T1: Decode, T2: Decode, T3: Decode, T4: Decode, T5: Decode, T6: Decode, T7: Decode, T8: Decode, T9: Decode, T10: Decode, T11: Decode, T12: Decode, T13: Decode> Decode for (T0, T1, T2, T3, T4, T5, T6, T7, T8, T9, T10, T11, T12, T13) {
    /// The first item, then the tuple of the others.
    open spec fn spec_decode(bytes: Seq<u8>) -> Option<(Self::M, nat)> {
        match T0::spec_decode(bytes) {
            None => None,
            Some((first, n0)) => match <(T1, T2, T3, T4, T5, T6, T7, T8, T9, T10, T11, T12, T13) as Decode>::spec_decode(bytes.skip(n0 as int)) {
                None => None,
                Some((rest, n1)) => Some(((first, rest.0, rest.1, rest.2, rest.3, rest.4, rest.5, rest.6, rest.7, rest.8, rest.9, rest.10, rest.11, rest.12), n0 + n1)),
            },
        }
    }

    proof fn lemma_decode_len(bytes: Seq<u8>) {
        T0::lemma_decode_len(bytes);
        if let Some((_, n0)) = T0::spec_decode(bytes) {
            <(T1, T2, T3, T4, T5, T6, T7, T8, T9, T10, T11, T12, T13) as Decode>::lemma_decode_len(bytes.skip(n0 as int));
        }
    }

    fn decode(iter: &mut ByteIter) -> (res: Self) {
        let ghost start = iter@;
        proof {
            T0::lemma_decode_len(start);
        }
        let a0 = T0::decode(iter);
        let ghost n0 = T0::spec_decode(start).unwrap().1;
        proof {
            <(T1, T2, T3, T4, T5, T6, T7, T8, T9, T10, T11, T12, T13) as Decode>::lemma_decode_len(start.skip(n0 as int));
        }
        let (a1, a2, a3, a4, a5, a6, a7, a8, a9, a10, a11, a12, a13) = <(T1, T2, T3, T4, T5, T6, T7, T8, T9, T10, T11, T12, T13) as Decode>::decode(iter);
        assert(iter@ =~= start.skip(Self::spec_decode(start).unwrap().1 as int));
        (a0, a1, a2, a3, a4, a5, a6, a7, a8, a9, a10, a11, a12, a13)
    }
}

impl<T0: Decode, T1: Decode, T2: Decode, T3: Decode, T4: Decode, T5: Decode, T6: Decode, T7: Decode, T8: Decode, T9: Decode, T10: Decode, T11: Decode, T12: Decode, T13: Decode, T14: Decode> Decode for (T0, T1, T2, T3, T4, T5, T6, T7, T8, T9, T10, T11, T12, T13, T14) {
    /// The first item, then the tuple of the others.
    open spec fn spec_decode(bytes: Seq<u8>) -> Option<(Self::M, nat)> {
        match T0::spec_decode(bytes) {
            None => None,
            Some((first, n0)) => match <(T1, T2, T3, T4, T5, T6, T7, T8, T9, T10, T11, T12, T13, T14) as Decode>::spec_decode(bytes.skip(n0 as int)) {
                None => None,
                Some((rest, n1)) => Some(((first, rest.0, rest.1, rest.2, rest.3, rest.4, rest.5, rest.6, rest.7, rest.8, rest.9, rest.10, rest.11, rest.12, rest.13), n0 + n1)),
            },
        }
    }

    proof fn lemma_decode_len(bytes: Seq<u8>) {
        T0::lemma_decode_len(bytes);
        if let Some((_, n0)) = T0::spec_decode(bytes) {
            <(T1, T2, T3, T4, T5, T6, T7, T8, T9, T10, T11, T12, T13, T14) as Decode>::lemma_decode_len(bytes.skip(n0 as int));
        }
    }

    fn decode(iter: &mut ByteIter) -> (res: Self) {
        let ghost start = iter@;
        proof {
            T0::lemma_decode_len(start);
        }
        let a0 = T0::decode(iter);
        let ghost n0 = T0::spec_decode(start).unwrap().1;
        proof {
            <(T1, T2, T3, T4, T5, T6, T7, T8, T9, T10, T11, T12, T13, T14) as Decode>::lemma_decode_len(start.skip(n0 as int));
        }
        let (a1, a2, a3, a4, a5, a6, a7, a8, a9, a10, a11, a12, a13, a14) = <(T1, T2, T3, T4, T5, T6, T7, T8, T9, T10, T11, T12, T13, T14) as Decode>::decode(iter);
        assert(iter@ =~= start.skip(Self::spec_decode(start).unwrap().1 as int));
        (a0, a1, a2, a3, a4, a5, a6, a7, a8, a9, a10, a11, a12, a13, a14)
    }
}

impl<T0: Decode, T1: Decode, T2: Decode, T3: Decode, T4: Decode, T5: Decode, T6: Decode, T7: Decode, T8: Decode, T9: Decode, T10: Decode, T11: Decode, T12: Decode, T13: Decode, T14: Decode, T15: Decode> Decode for (T0, T1, T2, T3, T4, T5, T6, T7, T8, T9, T10, T11, T12, T13, T14, T15) {
    /// The first item, then the tuple of the others.
    open spec fn spec_decode(bytes: Seq<u8>) -> Option<(Self::M, nat)> {
        match T0::spec_decode(bytes) {
            None => None,
            Some((first, n0)) => match <(T1, T2, T3, T4, T5, T6, T7, T8, T9, T10, T11, T12, T13, T14, T15) as Decode>::spec_decode(bytes.skip(n0 as int)) {
                None => None,
                Some((rest, n1)) => Some(((first, rest.0, rest.1, rest.2, rest.3, rest.4, rest.5, rest.6, rest.7, rest.8, rest.9, rest.10, rest.11, rest.12, rest.13, rest.14), n0 + n1)),
            },
        }
    }

    proof fn lemma_decode_len(bytes: Seq<u8>) {
        T0::lemma_decode_len(bytes);
        if let Some((_, n0)) = T0::spec_decode(bytes) {
            <(T1, T2, T3, T4, T5, T6, T7, T8, T9, T10, T11, T12, T13, T14, T15) as Decode>::lemma_decode_len(bytes.skip(n0 as int));
        }
    }

    fn decode(iter: &mut ByteIter) -> (res: Self) {
        let ghost start = iter@;
        proof {
            T0::lemma_decode_len(start);
        }
        let a0 = T0::decode(iter);
        let ghost n0 = T0::spec_decode(start).unwrap().1;
        proof {
            <(T1, T2, T3, T4, T5, T6, T7, T8, T9, T10, T11, T12, T13, T14, T15) as Decode>::lemma_decode_len(start.skip(n0 as int));
        }
        let (a1, a2, a3, a4, a5, a6, a7, a8, a9, a10, a11, a12, a13, a14, a15) = <(T1, T2, T3, T4, T5, T6, T7, T8, T9, T10, T11, T12, T13, T14, T15) as Decode>::decode(iter);
        assert(iter@ =~= start.skip(Self::spec_decode(start).unwrap().1 as int));
        (a0, a1, a2, a3, a4, a5, a6, a7, a8, a9, a10, a11, a12, a13, a14, a15)
    }
}


} // verus!
