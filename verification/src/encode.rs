//! Writing values as bytes.
use vstd::prelude::*;
use crate::big_endian::{be_bytes, lemma_be_bytes_len, lemma_pow256_values, lemma_usize_width, push_be, to_unsigned, usize_width, usize_width_exec};
use crate::model::{models, Model};
use crate::entries::{distinct_keys, entries_to_map, lemma_distinct_key_models, lemma_entries_list_map, lemma_map_model_entries, map_model};
use std::collections::HashMap;
use vstd::std_specs::hash::spec_hash_map_iter;
use vstd::std_specs::iter::IteratorSpec;
use vstd::utf8::encode_utf8;

verus! {

/// A type whose values can be written as bytes.
pub trait Encode: Model {
    /// Whether `bytes` is an encoding of the value whose model is `m`.
    spec fn spec_encoding(m: Self::M, bytes: Seq<u8>) -> bool;

    /// Appends the encoding of `self` to `vec`.
    fn encode_internal(&self, vec: &mut Vec<u8>)
        ensures
            old(vec)@.is_prefix_of(final(vec)@),
            Self::well_behaved() ==> Self::spec_encoding(
                self.model(),
                final(vec)@.skip(old(vec)@.len() as int),
            ),
    ;

    /// The encoding of `self`.
    fn encode(&self) -> (res: Vec<u8>)
        ensures
            Self::well_behaved() ==> Self::spec_encoding(self.model(), res@),
    {
        let mut vec = vec![];
        self.encode_internal(&mut vec);
        assert(vec@.skip(0) =~= vec@);
        vec
    }
}

impl Encode for u8 {
    /// Big-endian, in as many bytes as the type has.
    open spec fn spec_encoding(m: u8, bytes: Seq<u8>) -> bool {
        bytes == be_bytes(m as nat, 1)
    }

    fn encode_internal(&self, vec: &mut Vec<u8>) {
        proof {
            lemma_pow256_values();
        }
        let width: usize = 1;
        push_be(vec, *self as u128, width);
        assert(vec@.skip(old(vec)@.len() as int) =~= be_bytes(*self as nat, 1));
    }
}

impl Encode for u16 {
    /// Big-endian, in as many bytes as the type has.
    open spec fn spec_encoding(m: u16, bytes: Seq<u8>) -> bool {
        bytes == be_bytes(m as nat, 2)
    }

    fn encode_internal(&self, vec: &mut Vec<u8>) {
        proof {
            lemma_pow256_values();
        }
        let width: usize = 2;
        push_be(vec, *self as u128, width);
        assert(vec@.skip(old(vec)@.len() as int) =~= be_bytes(*self as nat, 2));
    }
}

impl Encode for u32 {
    /// Big-endian, in as many bytes as the type has.
    open spec fn spec_encoding(m: u32, bytes: Seq<u8>) -> bool {
        bytes == be_bytes(m as nat, 4)
    }

    fn encode_internal(&self, vec: &mut Vec<u8>) {
        proof {
            lemma_pow256_values();
        }
        let width: usize = 4;
        push_be(vec, *self as u128, width);
        assert(vec@.skip(old(vec)@.len() as int) =~= be_bytes(*self as nat, 4));
    }
}

impl Encode for u64 {
    /// Big-endian, in as many bytes as the type has.
    open spec fn spec_encoding(m: u64, bytes: Seq<u8>) -> bool {
        bytes == be_bytes(m as nat, 8)
    }

    fn encode_internal(&self, vec: &mut Vec<u8>) {
        proof {
            lemma_pow256_values();
        }
        let width: usize = 8;
        push_be(vec, *self as u128, width);
        assert(vec@.skip(old(vec)@.len() as int) =~= be_bytes(*self as nat, 8));
    }
}

impl Encode for u128 {
    /// Big-endian, in as many bytes as the type has.
    open spec fn spec_encoding(m: u128, bytes: Seq<u8>) -> bool {
        bytes == be_bytes(m as nat, 16)
    }

    fn encode_internal(&self, vec: &mut Vec<u8>) {
        proof {
            lemma_pow256_values();
        }
        let width: usize = 16;
        push_be(vec, *self as u128, width);
        assert(vec@.skip(old(vec)@.len() as int) =~= be_bytes(*self as nat, 16));
    }
}

impl Encode for usize {
    /// Big-endian, in as many bytes as the type has.
    open spec fn spec_encoding(m: usize, bytes: Seq<u8>) -> bool {
        bytes == be_bytes(m as nat, usize_width())
    }

    fn encode_internal(&self, vec: &mut Vec<u8>) {
        proof {
            lemma_usize_width();
        }
        let width: usize = usize_width_exec();
        push_be(vec, *self as u128, width);
        assert(vec@.skip(old(vec)@.len() as int) =~= be_bytes(*self as nat, usize_width()));
    }
}

impl Encode for i8 {
    /// Two's complement, big-endian, in as many bytes as the type has.
    open spec fn spec_encoding(m: i8, bytes: Seq<u8>) -> bool {
        bytes == be_bytes(to_unsigned(m as int, 1), 1)
    }

    fn encode_internal(&self, vec: &mut Vec<u8>) {
        proof {
            lemma_pow256_values();
        }
        let width: usize = 1;
        let u: u128 = if *self >= 0 {
            *self as u128
        } else {
            (*self as i128 + 0x100) as u128
        };
        push_be(vec, u, width);
        assert(vec@.skip(old(vec)@.len() as int) =~= be_bytes(to_unsigned(*self as int, 1), 1));
    }
}

impl Encode for i16 {
    /// Two's complement, big-endian, in as many bytes as the type has.
    open spec fn spec_encoding(m: i16, bytes: Seq<u8>) -> bool {
        bytes == be_bytes(to_unsigned(m as int, 2), 2)
    }

    fn encode_internal(&self, vec: &mut Vec<u8>) {
        proof {
            lemma_pow256_values();
        }
        let width: usize = 2;
        let u: u128 = if *self >= 0 {
            *self as u128
        } else {
            (*self as i128 + 0x10000) as u128
        };
        push_be(vec, u, width);
        assert(vec@.skip(old(vec)@.len() as int) =~= be_bytes(to_unsigned(*self as int, 2), 2));
    }
}

impl Encode for i32 {
    /// Two's complement, big-endian, in as many bytes as the type has.
    open spec fn spec_encoding(m: i32, bytes: Seq<u8>) -> bool {
        bytes == be_bytes(to_unsigned(m as int, 4), 4)
    }

    fn encode_internal(&self, vec: &mut Vec<u8>) {
        proof {
            lemma_pow256_values();
        }
        let width: usize = 4;
        let u: u128 = if *self >= 0 {
            *self as u128
        } else {
            (*self as i128 + 0x100000000) as u128
        };
        push_be(vec, u, width);
        assert(vec@.skip(old(vec)@.len() as int) =~= be_bytes(to_unsigned(*self as int, 4), 4));
    }
}

impl Encode for i64 {
    /// Two's complement, big-endian, in as many bytes as the type has.
    open spec fn spec_encoding(m: i64, bytes: Seq<u8>) -> bool {
        bytes == be_bytes(to_unsigned(m as int, 8), 8)
    }

    fn encode_internal(&self, vec: &mut Vec<u8>) {
        proof {
            lemma_pow256_values();
        }
        let width: usize = 8;
        let u: u128 = if *self >= 0 {
            *self as u128
        } else {
            (*self as i128 + 0x10000000000000000) as u128
        };
        push_be(vec, u, width);
        assert(vec@.skip(old(vec)@.len() as int) =~= be_bytes(to_unsigned(*self as int, 8), 8));
    }
}

impl Encode for i128 {
    /// Two's complement, big-endian, in as many bytes as the type has.
    open spec fn spec_encoding(m: i128, bytes: Seq<u8>) -> bool {
        bytes == be_bytes(to_unsigned(m as int, 16), 16)
    }

    fn encode_internal(&self, vec: &mut Vec<u8>) {
        proof {
            lemma_pow256_values();
        }
        let width: usize = 16;
        let u: u128 = if *self >= 0 {
            *self as u128
        } else {
            (*self + i128::MAX + 1) as u128 + 0x8000_0000_0000_0000_0000_0000_0000_0000
        };
        push_be(vec, u, width);
        assert(vec@.skip(old(vec)@.len() as int) =~= be_bytes(to_unsigned(*self as int, 16), 16));
    }
}

impl Encode for isize {
    /// Two's complement, big-endian, in as many bytes as the type has.
    open spec fn spec_encoding(m: isize, bytes: Seq<u8>) -> bool {
        bytes == be_bytes(to_unsigned(m as int, usize_width()), usize_width())
    }

    fn encode_internal(&self, vec: &mut Vec<u8>) {
        proof {
            lemma_usize_width();
        }
        let width: usize = usize_width_exec();
        let u: u128 = if *self >= 0 {
            *self as u128
        } else {
            (*self as i128 + usize::MAX as i128 + 1) as u128
        };
        push_be(vec, u, width);
        assert(vec@.skip(old(vec)@.len() as int) =~= be_bytes(to_unsigned(*self as int, usize_width()), usize_width()));
    }
}


impl Encode for bool {
    /// One byte: `1` or `0`.
    open spec fn spec_encoding(m: bool, bytes: Seq<u8>) -> bool {
        bytes == seq![if m { 1u8 } else { 0u8 }]
    }

    fn encode_internal(&self, vec: &mut Vec<u8>) {
        vec.push(*self as u8);
        assert(vec@.skip(old(vec)@.len() as int) =~= seq![if *self { 1u8 } else { 0u8 }]);
    }
}

/// A sequence that another one starts with is the front of it.
pub proof fn lemma_prefix_split(front: Seq<u8>, whole: Seq<u8>)
    requires
        front.is_prefix_of(whole),
    ensures
        whole == front + whole.skip(front.len() as int),
{
    assert(whole =~= front + whole.skip(front.len() as int));
}

impl<T: Encode> Encode for Option<T> {
    /// A tag byte, `1` before an encoding of the value or `0` alone.
    open spec fn spec_encoding(m: Option<T::M>, bytes: Seq<u8>) -> bool {
        match m {
            None => bytes == seq![0u8],
            Some(v) => bytes.len() >= 1 && bytes[0] == 1 && T::spec_encoding(v, bytes.drop_first()),
        }
    }

    fn encode_internal(&self, vec: &mut Vec<u8>) {
        self.is_some().encode_internal(vec);
        proof {
            lemma_prefix_split(old(vec)@, vec@);
        }
        let ghost tagged = vec@;
        assert(tagged.skip(old(vec)@.len() as int) == seq![if self.is_some() { 1u8 } else { 0u8 }]);
        if let Some(v) = self {
            v.encode_internal(vec);
            proof {
                lemma_prefix_split(tagged, vec@);
                let piece = vec@.skip(tagged.len() as int);
                assert(vec@.skip(old(vec)@.len() as int) =~= seq![1u8] + piece);
                assert((seq![1u8] + piece).drop_first() =~= piece);
            }
        }
    }
}

/// Whether `bytes` is the encodings of the values whose models are `ms`,
/// one after the other.
pub open spec fn encodes_all<T: Encode>(ms: Seq<T::M>, bytes: Seq<u8>) -> bool
    decreases ms.len(),
{
    if ms.len() == 0 {
        bytes.len() == 0
    } else {
        exists|k: int|
            0 <= k <= bytes.len() && encodes_all::<T>(ms.drop_last(), bytes.take(k))
                && #[trigger] T::spec_encoding(ms.last(), bytes.skip(k))
    }
}

/// Appending an encoding of one more value extends `encodes_all`.
pub proof fn lemma_encodes_all_push<T: Encode>(ms: Seq<T::M>, bytes: Seq<u8>, m: T::M, piece: Seq<u8>)
    requires
        encodes_all::<T>(ms, bytes),
        T::spec_encoding(m, piece),
    ensures
        encodes_all::<T>(ms.push(m), bytes + piece),
{
    let k = bytes.len() as int;
    assert((bytes + piece).take(k) =~= bytes);
    assert((bytes + piece).skip(k) =~= piece);
    assert(ms.push(m).drop_last() =~= ms);
    assert(ms.push(m).last() == m);
    assert(T::spec_encoding(ms.push(m).last(), (bytes + piece).skip(k)));
    assert(encodes_all::<T>(ms.push(m).drop_last(), (bytes + piece).take(k)));
}

/// Whether `bytes` starts with `len` written as a `usize`.
pub open spec fn length_prefixed(len: nat, bytes: Seq<u8>) -> bool {
    &&& len <= usize::MAX
    &&& bytes.len() >= usize_width()
    &&& bytes.take(usize_width() as int) == be_bytes(len, usize_width())
}

/// What follows the length that starts `bytes`.
pub open spec fn after_length(bytes: Seq<u8>) -> Seq<u8> {
    bytes.skip(usize_width() as int)
}

impl<T: Encode> Encode for Vec<T> {
    /// The number of items, then their encodings in order.
    open spec fn spec_encoding(m: Seq<T::M>, bytes: Seq<u8>) -> bool {
        length_prefixed(m.len(), bytes) && encodes_all::<T>(m, after_length(bytes))
    }

    fn encode_internal(&self, vec: &mut Vec<u8>) {
        let len = self.len();
        len.encode_internal(vec);
        proof {
            lemma_prefix_split(old(vec)@, vec@);
        }
        let ghost head = vec@;
        let ghost ms = models(self@);
        let ghost mut body: Seq<u8> = Seq::empty();
        let mut i: usize = 0;
        assert(ms.take(0) =~= Seq::<T::M>::empty());
        assert(vec@ =~= head + body);
        while i < len
            invariant
                len == self@.len(),
                ms == models(self@),
                i <= len,
                head == old(vec)@ + be_bytes(len as nat, usize_width()),
                vec@ == head + body,
                T::well_behaved() ==> encodes_all::<T>(ms.take(i as int), body),
            decreases len - i,
        {
            let ghost before = vec@;
            self[i].encode_internal(vec);
            proof {
                lemma_prefix_split(before, vec@);
                let piece = vec@.skip(before.len() as int);
                let k = body.len() as int;
                let body2 = body + piece;
                assert(body2.take(k) =~= body);
                assert(body2.skip(k) =~= piece);
                assert(ms.take(i + 1).drop_last() =~= ms.take(i as int));
                assert(ms.take(i + 1).last() == self@[i as int].model());
                assert(vec@ =~= head + body2);
                assert(ms.take(i + 1) =~= ms.take(i as int).push(self@[i as int].model()));
                if T::well_behaved() {
                    lemma_encodes_all_push::<T>(ms.take(i as int), body, self@[i as int].model(), piece);
                }
                body = body2;
            }
            i = i + 1;
        }
        proof {
            assert(ms.take(len as int) =~= ms);
            let written = vec@.skip(old(vec)@.len() as int);
            assert(written =~= be_bytes(len as nat, usize_width()) + body);
            lemma_be_bytes_len(len as nat, usize_width());
            assert(written.take(usize_width() as int) =~= be_bytes(len as nat, usize_width()));
            assert(after_length(written) =~= body);
        }
    }
}

impl Encode for String {
    /// The number of UTF-8 bytes, then the bytes.
    open spec fn spec_encoding(m: Seq<char>, bytes: Seq<u8>) -> bool {
        length_prefixed(encode_utf8(m).len(), bytes) && after_length(bytes) == encode_utf8(m)
    }

    fn encode_internal(&self, vec: &mut Vec<u8>) {
        self.as_str().encode_internal(vec);
    }
}

impl<'a> Encode for &'a str {
    /// The number of UTF-8 bytes, then the bytes.
    open spec fn spec_encoding(m: Seq<char>, bytes: Seq<u8>) -> bool {
        length_prefixed(encode_utf8(m).len(), bytes) && after_length(bytes) == encode_utf8(m)
    }

    fn encode_internal(&self, vec: &mut Vec<u8>) {
        let bytes = self.as_bytes();
        let len = bytes.len();
        len.encode_internal(vec);
        proof {
            lemma_prefix_split(old(vec)@, vec@);
        }
        let ghost head = vec@;
        let mut i: usize = 0;
        assert(vec@ =~= head + bytes@.take(0));
        while i < len
            invariant
                len == bytes@.len(),
                i <= len,
                head == old(vec)@ + be_bytes(len as nat, usize_width()),
                vec@ == head + bytes@.take(i as int),
            decreases len - i,
        {
            vec.push(bytes[i]);
            i = i + 1;
            assert(vec@ =~= head + bytes@.take(i as int));
        }
        assert(bytes@.take(len as int) =~= bytes@);
        let ghost written = vec@.skip(old(vec)@.len() as int);
        assert(written =~= be_bytes(len as nat, usize_width()) + bytes@);
        proof {
            lemma_be_bytes_len(len as nat, usize_width());
        }
        assert(written.take(usize_width() as int) =~= be_bytes(len as nat, usize_width()));
        assert(after_length(written) =~= bytes@);
        assert(bytes@ == encode_utf8(self.model()));
        assert(length_prefixed(encode_utf8(self.model()).len(), written));
        assert(Self::spec_encoding(self.model(), written));
    }
}

/// The next item of `it`, by the contract that vstd gives to `Iterator::next`.
fn next_item<I: Iterator>(it: &mut I) -> (res: Option<I::Item>)
    ensures
        (*final(it)).obeys_prophetic_iter_laws() == (*old(it)).obeys_prophetic_iter_laws(),
        (*old(it)).obeys_prophetic_iter_laws() && (*old(it)).remaining().len() > 0 ==> {
            &&& (*final(it)).remaining() == (*old(it)).remaining().drop_first()
            &&& res == Some((*old(it)).remaining()[0])
        },
        (*old(it)).obeys_prophetic_iter_laws() && (*old(it)).remaining().len() == 0 ==> res is None,
{
    it.next()
}

/// The entries that a walk of a map hands out, as owned pairs.
pub open spec fn owned_entries<K, V>(l: Seq<(&K, &V)>) -> Seq<(K, V)> {
    l.map_values(|e: (&K, &V)| (*e.0, *e.1))
}

impl<K: Encode, V: Encode> Encode for HashMap<K, V> {
    /// The number of entries, then each key and value pair, once each, in
    /// the order in which the map is walked.
    open spec fn spec_encoding(m: Map<K::M, V::M>, bytes: Seq<u8>) -> bool {
        exists|entries: Seq<(K::M, V::M)>|
            {
                &&& distinct_keys(entries)
                &&& #[trigger] entries_to_map(entries) == m
                &&& length_prefixed(entries.len(), bytes)
                &&& encodes_all::<(K, V)>(entries, after_length(bytes))
            }
    }

    /// The encoding of `self`: the vector of its entries in the order in
    /// which `iter` walks it, as `encode_internal` writes them.
    fn encode(&self) -> (res: Vec<u8>)
        ensures
            Self::well_behaved() ==> <Vec<(K, V)> as Encode>::spec_encoding(
                models(owned_entries(spec_hash_map_iter(self).remaining())),
                res@,
            ),
    {
        let mut vec = vec![];
        self.encode_internal(&mut vec);
        assert(vec@.skip(0) =~= vec@);
        vec
    }

    /// The map is written as the vector of its entries in the order in
    /// which `iter` walks it.
    fn encode_internal(&self, vec: &mut Vec<u8>)
        ensures
            Self::well_behaved() ==> <Vec<(K, V)> as Encode>::spec_encoding(
                models(owned_entries(spec_hash_map_iter(self).remaining())),
                final(vec)@.skip(old(vec)@.len() as int),
            ),
    {
        let len = self.len();
        len.encode_internal(vec);
        proof {
            lemma_prefix_split(old(vec)@, vec@);
        }
        let ghost head = vec@;
        let ghost mut body: Seq<u8> = Seq::empty();
        let mut it = self.iter();
        let ghost walk = it.remaining();
        let ghost listing = owned_entries(walk);
        let mut i: usize = 0;
        assert(vec@ =~= head + body);
        assert(models(listing.take(0)) =~= Seq::<(K::M, V::M)>::empty());
        while i < len
            invariant
                i <= len,
                it.obeys_prophetic_iter_laws(),
                head == old(vec)@ + be_bytes(len as nat, usize_width()),
                vec@ == head + body,
                listing == owned_entries(walk),
                Self::well_behaved() ==> {
                    &&& walk == spec_hash_map_iter(self).remaining()
                    &&& walk.no_duplicates()
                    &&& len == listing.len()
                    &&& owned_entries(it.remaining()) == listing.skip(i as int)
                    &&& encodes_all::<(K, V)>(models(listing.take(i as int)), body)
                },
            decreases len - i,
        {
            let ghost rem = it.remaining();
            match next_item(&mut it) {
                Some((k, v)) => {
                    let ghost before = vec@;
                    k.encode_internal(vec);
                    let ghost mid = vec@;
                    v.encode_internal(vec);
                    proof {
                        lemma_prefix_split(before, mid);
                        lemma_prefix_split(mid, vec@);
                        let piece = vec@.skip(before.len() as int);
                        if Self::well_behaved() {
                            assert(listing[i as int] == (*k, *v)) by {
                                assert(owned_entries(rem)[0] == listing.skip(i as int)[0]);
                            }
                            assert(it.remaining() == rem.drop_first());
                            assert(owned_entries(rem.drop_first()) =~= owned_entries(rem).drop_first());
                            assert(listing.skip(i as int).drop_first() =~= listing.skip(i + 1));
                            let kl = mid.len() - before.len();
                            assert(piece.take(kl) =~= mid.skip(before.len() as int));
                            assert(piece.skip(kl) =~= vec@.skip(mid.len() as int));
                            assert(piece.skip(kl).skip(piece.skip(kl).len() as int) =~= Seq::<u8>::empty());
                            assert(K::spec_encoding((k.model(), v.model()).0, piece.take(kl)));
                            let tail = piece.skip(kl);
                            assert(tail.take(tail.len() as int) =~= tail);
                            assert(V::spec_encoding(((k.model(), v.model()).1,).0, tail.take(tail.len() as int)));
                            assert(<(V,) as Encode>::spec_encoding(((k.model(), v.model()).1,), tail));
                            assert(<(K, V) as Encode>::spec_encoding((k.model(), v.model()), piece));
                            assert(models(listing.take(i + 1)) =~= models(listing.take(i as int)).push(
                                (k.model(), v.model()),
                            ));
                            lemma_encodes_all_push::<(K, V)>(
                                models(listing.take(i as int)),
                                body,
                                (k.model(), v.model()),
                                piece,
                            );
                        }
                        body = body + piece;
                        assert(vec@ =~= head + body);
                    }
                },
                None => {
                },
            }
            i = i + 1;
        }
        proof {
            if Self::well_behaved() {
                let entries = models(listing);
                assert(listing.take(len as int) =~= listing);
                assert(distinct_keys(listing)) by {
                    assert forall|a: int, b: int| 0 <= a < b < listing.len() implies listing[a].0 != listing[b].0 by {
                        if listing[a].0 == listing[b].0 {
                            assert(self@.contains_key(*walk[a].0));
                            assert(self@.contains_key(*walk[b].0));
                            assert(walk[a] == walk[b]);
                        }
                    }
                }
                assert forall|i: int| 0 <= i < listing.len() implies #[trigger] self@.contains_key(listing[i].0)
                    && self@[listing[i].0] == listing[i].1 by {
                    assert(self@.contains_key(*walk[i].0));
                }
                assert forall|a: K| #[trigger] self@.contains_key(a) implies exists|i: int|
                    0 <= i < listing.len() && listing[i].0 == a by {
                    assert(walk.contains((&a, &self@[a])));
                    let i = choose|i: int| 0 <= i < walk.len() && walk[i] == (&a, &self@[a]);
                    assert(listing[i].0 == a);
                }
                lemma_entries_list_map(listing, self@);
                lemma_map_model_entries(listing);
                lemma_distinct_key_models(listing);
                let written = vec@.skip(old(vec)@.len() as int);
                assert(written =~= be_bytes(len as nat, usize_width()) + body);
                lemma_be_bytes_len(len as nat, usize_width());
                assert(written.take(usize_width() as int) =~= be_bytes(len as nat, usize_width()));
                assert(after_length(written) =~= body);
                assert(entries_to_map(entries) == self.model());
            }
        }
    }
}

impl Encode for () {
    /// Nothing.
    open spec fn spec_encoding(m: (), bytes: Seq<u8>) -> bool {
        bytes.len() == 0
    }

    fn encode_internal(&self, vec: &mut Vec<u8>) {
        assert(vec@.skip(old(vec)@.len() as int) =~= Seq::<u8>::empty());
    }
}

impl<T0: Encode> Encode for (T0,) {
    /// An encoding of the first item, then one of the tuple of the others.
    open spec fn spec_encoding(m: Self::M, bytes: Seq<u8>) -> bool {
        exists|k: int|
            0 <= k <= bytes.len() && #[trigger] T0::spec_encoding(m.0, bytes.take(k))
                && <() as Encode>::spec_encoding((), bytes.skip(k))
    }

    #[verifier::rlimit(40)]
    fn encode_internal(&self, vec: &mut Vec<u8>) {
        let ghost v0 = vec@;
        self.0.encode_internal(vec);
        proof {
            lemma_prefix_split(v0, vec@);
            if Self::well_behaved() {
                assert(vec@.skip(vec@.len() as int) =~= Seq::<u8>::empty());
                let s0 = vec@.skip(v0.len() as int);
                let k0 = vec@.len() - v0.len();
                assert(s0.take(k0) =~= vec@.skip(v0.len() as int));
                assert(s0.skip(k0) =~= vec@.skip(vec@.len() as int));
                assert(T0::spec_encoding((self.0.model(),).0, s0.take(k0)));
                assert(<(T0,) as Encode>::spec_encoding((self.0.model(),), s0));
            }
        }
    }
}

impl<T0: Encode, T1: Encode> Encode for (T0, T1) {
    /// An encoding of the first item, then one of the tuple of the others.
    open spec fn spec_encoding(m: Self::M, bytes: Seq<u8>) -> bool {
        exists|k: int|
            0 <= k <= bytes.len() && #[trigger] T0::spec_encoding(m.0, bytes.take(k))
                && <(T1,) as Encode>::spec_encoding((m.1,), bytes.skip(k))
    }

    #[verifier::rlimit(40)]
    fn encode_internal(&self, vec: &mut Vec<u8>) {
        let ghost v0 = vec@;
        self.0.encode_internal(vec);
        let ghost v1 = vec@;
        self.1.encode_internal(vec);
        proof {
            lemma_prefix_split(v0, v1);
            lemma_prefix_split(v1, vec@);
            if Self::well_behaved() {
                assert(vec@.skip(vec@.len() as int) =~= Seq::<u8>::empty());
                let s1 = vec@.skip(v1.len() as int);
                let k1 = vec@.len() - v1.len();
                assert(s1.take(k1) =~= vec@.skip(v1.len() as int));
                assert(s1.skip(k1) =~= vec@.skip(vec@.len() as int));
                assert(T1::spec_encoding((self.1.model(),).0, s1.take(k1)));
                assert(<(T1,) as Encode>::spec_encoding((self.1.model(),), s1));
                let s0 = vec@.skip(v0.len() as int);
                let k0 = v1.len() - v0.len();
                assert(s0.take(k0) =~= v1.skip(v0.len() as int));
                assert(s0.skip(k0) =~= vec@.skip(v1.len() as int));
                assert(T0::spec_encoding((self.0.model(), self.1.model()).0, s0.take(k0)));
                assert(<(T0, T1) as Encode>::spec_encoding((self.0.model(), self.1.model()), s0));
            }
        }
    }
}

impl<T0: Encode, T1: Encode, T2: Encode> Encode for (T0, T1, T2) {
    /// An encoding of the first item, then one of the tuple of the others.
    open spec fn spec_encoding(m: Self::M, bytes: Seq<u8>) -> bool {
        exists|k: int|
            0 <= k <= bytes.len() && #[trigger] T0::spec_encoding(m.0, bytes.take(k))
                && <(T1, T2) as Encode>::spec_encoding((m.1, m.2), bytes.skip(k))
    }

    #[verifier::rlimit(40)]
    fn encode_internal(&self, vec: &mut Vec<u8>) {
        let ghost v0 = vec@;
        self.0.encode_internal(vec);
        let ghost v1 = vec@;
        self.1.encode_internal(vec);
        let ghost v2 = vec@;
        self.2.encode_internal(vec);
        proof {
            lemma_prefix_split(v0, v1);
            lemma_prefix_split(v1, v2);
            lemma_prefix_split(v2, vec@);
            if Self::well_behaved() {
                assert(vec@.skip(vec@.len() as int) =~= Seq::<u8>::empty());
                let s2 = vec@.skip(v2.len() as int);
                let k2 = vec@.len() - v2.len();
                assert(s2.take(k2) =~= vec@.skip(v2.len() as int));
                assert(s2.skip(k2) =~= vec@.skip(vec@.len() as int));
                assert(T2::spec_encoding((self.2.model(),).0, s2.take(k2)));
                assert(<(T2,) as Encode>::spec_encoding((self.2.model(),), s2));
                let s1 = vec@.skip(v1.len() as int);
                let k1 = v2.len() - v1.len();
                assert(s1.take(k1) =~= v2.skip(v1.len() as int));
                assert(s1.skip(k1) =~= vec@.skip(v2.len() as int));
                assert(T1::spec_encoding((self.1.model(), self.2.model()).0, s1.take(k1)));
                assert(<(T1, T2) as Encode>::spec_encoding((self.1.model(), self.2.model()), s1));
                let s0 = vec@.skip(v0.len() as int);
                let k0 = v1.len() - v0.len();
                assert(s0.take(k0) =~= v1.skip(v0.len() as int));
                assert(s0.skip(k0) =~= vec@.skip(v1.len() as int));
                assert(T0::spec_encoding((self.0.model(), self.1.model(), self.2.model()).0, s0.take(k0)));
                assert(<(T0, T1, T2) as Encode>::spec_encoding((self.0.model(), self.1.model(), self.2.model()), s0));
            }
        }
    }
}

impl<T0: Encode, T1: Encode, T2: Encode, T3: Encode> Encode for (T0, T1, T2, T3) {
    /// An encoding of the first item, then one of the tuple of the others.
    open spec fn spec_encoding(m: Self::M, bytes: Seq<u8>) -> bool {
        exists|k: int|
            0 <= k <= bytes.len() && #[trigger] T0::spec_encoding(m.0, bytes.take(k))
                && <(T1, T2, T3) as Encode>::spec_encoding((m.1, m.2, m.3), bytes.skip(k))
    }

    #[verifier::rlimit(40)]
    fn encode_internal(&self, vec: &mut Vec<u8>) {
        let ghost v0 = vec@;
        self.0.encode_internal(vec);
        let ghost v1 = vec@;
        self.1.encode_internal(vec);
        let ghost v2 = vec@;
        self.2.encode_internal(vec);
        let ghost v3 = vec@;
        self.3.encode_internal(vec);
        proof {
            lemma_prefix_split(v0, v1);
            lemma_prefix_split(v1, v2);
            lemma_prefix_split(v2, v3);
            lemma_prefix_split(v3, vec@);
            if Self::well_behaved() {
                assert(vec@.skip(vec@.len() as int) =~= Seq::<u8>::empty());
                let s3 = vec@.skip(v3.len() as int);
                let k3 = vec@.len() - v3.len();
                assert(s3.take(k3) =~= vec@.skip(v3.len() as int));
                assert(s3.skip(k3) =~= vec@.skip(vec@.len() as int));
                assert(T3::spec_encoding((self.3.model(),).0, s3.take(k3)));
                assert(<(T3,) as Encode>::spec_encoding((self.3.model(),), s3));
                let s2 = vec@.skip(v2.len() as int);
                let k2 = v3.len() - v2.len();
                assert(s2.take(k2) =~= v3.skip(v2.len() as int));
                assert(s2.skip(k2) =~= vec@.skip(v3.len() as int));
                assert(T2::spec_encoding((self.2.model(), self.3.model()).0, s2.take(k2)));
                assert(<(T2, T3) as Encode>::spec_encoding((self.2.model(), self.3.model()), s2));
                let s1 = vec@.skip(v1.len() as int);
                let k1 = v2.len() - v1.len();
                assert(s1.take(k1) =~= v2.skip(v1.len() as int));
                assert(s1.skip(k1) =~= vec@.skip(v2.len() as int));
                assert(T1::spec_encoding((self.1.model(), self.2.model(), self.3.model()).0, s1.take(k1)));
                assert(<(T1, T2, T3) as Encode>::spec_encoding((self.1.model(), self.2.model(), self.3.model()), s1));
                let s0 = vec@.skip(v0.len() as int);
                let k0 = v1.len() - v0.len();
                assert(s0.take(k0) =~= v1.skip(v0.len() as int));
                assert(s0.skip(k0) =~= vec@.skip(v1.len() as int));
                assert(T0::spec_encoding((self.0.model(), self.1.model(), self.2.model(), self.3.model()).0, s0.take(k0)));
                assert(<(T0, T1, T2, T3) as Encode>::spec_encoding((self.0.model(), self.1.model(), self.2.model(), self.3.model()), s0));
            }
        }
    }
}

impl<T0: Encode, T1: Encode, T2: Encode, T3: Encode, T4: Encode> Encode for (T0, T1, T2, T3, T4) {
    /// An encoding of the first item, then one of the tuple of the others.
    open spec fn spec_encoding(m: Self::M, bytes: Seq<u8>) -> bool {
        exists|k: int|
            0 <= k <= bytes.len() && #[trigger] T0::spec_encoding(m.0, bytes.take(k))
                && <(T1, T2, T3, T4) as Encode>::spec_encoding((m.1, m.2, m.3, m.4), bytes.skip(k))
    }

    #[verifier::rlimit(40)]
    fn encode_internal(&self, vec: &mut Vec<u8>) {
        let ghost v0 = vec@;
        self.0.encode_internal(vec);
        let ghost v1 = vec@;
        self.1.encode_internal(vec);
        let ghost v2 = vec@;
        self.2.encode_internal(vec);
        let ghost v3 = vec@;
        self.3.encode_internal(vec);
        let ghost v4 = vec@;
        self.4.encode_internal(vec);
        proof {
            lemma_prefix_split(v0, v1);
            lemma_prefix_split(v1, v2);
            lemma_prefix_split(v2, v3);
            lemma_prefix_split(v3, v4);
            lemma_prefix_split(v4, vec@);
            if Self::well_behaved() {
                assert(vec@.skip(vec@.len() as int) =~= Seq::<u8>::empty());
                let s4 = vec@.skip(v4.len() as int);
                let k4 = vec@.len() - v4.len();
                assert(s4.take(k4) =~= vec@.skip(v4.len() as int));
                assert(s4.skip(k4) =~= vec@.skip(vec@.len() as int));
                assert(T4::spec_encoding((self.4.model(),).0, s4.take(k4)));
                assert(<(T4,) as Encode>::spec_encoding((self.4.model(),), s4));
                let s3 = vec@.skip(v3.len() as int);
                let k3 = v4.len() - v3.len();
                assert(s3.take(k3) =~= v4.skip(v3.len() as int));
                assert(s3.skip(k3) =~= vec@.skip(v4.len() as int));
                assert(T3::spec_encoding((self.3.model(), self.4.model()).0, s3.take(k3)));
                assert(<(T3, T4) as Encode>::spec_encoding((self.3.model(), self.4.model()), s3));
                let s2 = vec@.skip(v2.len() as int);
                let k2 = v3.len() - v2.len();
                assert(s2.take(k2) =~= v3.skip(v2.len() as int));
                assert(s2.skip(k2) =~= vec@.skip(v3.len() as int));
                assert(T2::spec_encoding((self.2.model(), self.3.model(), self.4.model()).0, s2.take(k2)));
                assert(<(T2, T3, T4) as Encode>::spec_encoding((self.2.model(), self.3.model(), self.4.model()), s2));
                let s1 = vec@.skip(v1.len() as int);
                let k1 = v2.len() - v1.len();
                assert(s1.take(k1) =~= v2.skip(v1.len() as int));
                assert(s1.skip(k1) =~= vec@.skip(v2.len() as int));
                assert(T1::spec_encoding((self.1.model(), self.2.model(), self.3.model(), self.4.model()).0, s1.take(k1)));
                assert(<(T1, T2, T3, T4) as Encode>::spec_encoding((self.1.model(), self.2.model(), self.3.model(), self.4.model()), s1));
                let s0 = vec@.skip(v0.len() as int);
                let k0 = v1.len() - v0.len();
                assert(s0.take(k0) =~= v1.skip(v0.len() as int));
                assert(s0.skip(k0) =~= vec@.skip(v1.len() as int));
                assert(T0::spec_encoding((self.0.model(), self.1.model(), self.2.model(), self.3.model(), self.4.model()).0, s0.take(k0)));
                assert(<(T0, T1, T2, T3, T4) as Encode>::spec_encoding((self.0.model(), self.1.model(), self.2.model(), self.3.model(), self.4.model()), s0));
            }
        }
    }
}

impl<T0: Encode, T1: Encode, T2: Encode, T3: Encode, T4: Encode, T5: Encode> Encode for (T0, T1, T2, T3, T4, T5) {
    /// An encoding of the first item, then one of the tuple of the others.
    open spec fn spec_encoding(m: Self::M, bytes: Seq<u8>) -> bool {
        exists|k: int|
            0 <= k <= bytes.len() && #[trigger] T0::spec_encoding(m.0, bytes.take(k))
                && <(T1, T2, T3, T4, T5) as Encode>::spec_encoding((m.1, m.2, m.3, m.4, m.5), bytes.skip(k))
    }

    #[verifier::rlimit(40)]
    fn encode_internal(&self, vec: &mut Vec<u8>) {
        let ghost v0 = vec@;
        self.0.encode_internal(vec);
        let ghost v1 = vec@;
        self.1.encode_internal(vec);
        let ghost v2 = vec@;
        self.2.encode_internal(vec);
        let ghost v3 = vec@;
        self.3.encode_internal(vec);
        let ghost v4 = vec@;
        self.4.encode_internal(vec);
        let ghost v5 = vec@;
        self.5.encode_internal(vec);
        proof {
            lemma_prefix_split(v0, v1);
            lemma_prefix_split(v1, v2);
            lemma_prefix_split(v2, v3);
            lemma_prefix_split(v3, v4);
            lemma_prefix_split(v4, v5);
            lemma_prefix_split(v5, vec@);
            if Self::well_behaved() {
                assert(vec@.skip(vec@.len() as int) =~= Seq::<u8>::empty());
                let s5 = vec@.skip(v5.len() as int);
                let k5 = vec@.len() - v5.len();
                assert(s5.take(k5) =~= vec@.skip(v5.len() as int));
                assert(s5.skip(k5) =~= vec@.skip(vec@.len() as int));
                assert(T5::spec_encoding((self.5.model(),).0, s5.take(k5)));
                assert(<(T5,) as Encode>::spec_encoding((self.5.model(),), s5));
                let s4 = vec@.skip(v4.len() as int);
                let k4 = v5.len() - v4.len();
                assert(s4.take(k4) =~= v5.skip(v4.len() as int));
                assert(s4.skip(k4) =~= vec@.skip(v5.len() as int));
                assert(T4::spec_encoding((self.4.model(), self.5.model()).0, s4.take(k4)));
                assert(<(T4, T5) as Encode>::spec_encoding((self.4.model(), self.5.model()), s4));
                let s3 = vec@.skip(v3.len() as int);
                let k3 = v4.len() - v3.len();
                assert(s3.take(k3) =~= v4.skip(v3.len() as int));
                assert(s3.skip(k3) =~= vec@.skip(v4.len() as int));
                assert(T3::spec_encoding((self.3.model(), self.4.model(), self.5.model()).0, s3.take(k3)));
                assert(<(T3, T4, T5) as Encode>::spec_encoding((self.3.model(), self.4.model(), self.5.model()), s3));
                let s2 = vec@.skip(v2.len() as int);
                let k2 = v3.len() - v2.len();
                assert(s2.take(k2) =~= v3.skip(v2.len() as int));
                assert(s2.skip(k2) =~= vec@.skip(v3.len() as int));
                assert(T2::spec_encoding((self.2.model(), self.3.model(), self.4.model(), self.5.model()).0, s2.take(k2)));
                assert(<(T2, T3, T4, T5) as Encode>::spec_encoding((self.2.model(), self.3.model(), self.4.model(), self.5.model()), s2));
                let s1 = vec@.skip(v1.len() as int);
                let k1 = v2.len() - v1.len();
                assert(s1.take(k1) =~= v2.skip(v1.len() as int));
                assert(s1.skip(k1) =~= vec@.skip(v2.len() as int));
                assert(T1::spec_encoding((self.1.model(), self.2.model(), self.3.model(), self.4.model(), self.5.model()).0, s1.take(k1)));
                assert(<(T1, T2, T3, T4, T5) as Encode>::spec_encoding((self.1.model(), self.2.model(), self.3.model(), self.4.model(), self.5.model()), s1));
                let s0 = vec@.skip(v0.len() as int);
                let k0 = v1.len() - v0.len();
                assert(s0.take(k0) =~= v1.skip(v0.len() as int));
                assert(s0.skip(k0) =~= vec@.skip(v1.len() as int));
                assert(T0::spec_encoding((self.0.model(), self.1.model(), self.2.model(), self.3.model(), self.4.model(), self.5.model()).0, s0.take(k0)));
                assert(<(T0, T1, T2, T3, T4, T5) as Encode>::spec_encoding((self.0.model(), self.1.model(), self.2.model(), self.3.model(), self.4.model(), self.5.model()), s0));
            }
        }
    }
}

impl<T0: Encode, T1: Encode, T2: Encode, T3: Encode, T4: Encode, T5: Encode, T6: Encode> Encode for (T0, T1, T2, T3, T4, T5, T6) {
    /// An encoding of the first item, then one of the tuple of the others.
    open spec fn spec_encoding(m: Self::M, bytes: Seq<u8>) -> bool {
        exists|k: int|
            0 <= k <= bytes.len() && #[trigger] T0::spec_encoding(m.0, bytes.take(k))
                && <(T1, T2, T3, T4, T5, T6) as Encode>::spec_encoding((m.1, m.2, m.3, m.4, m.5, m.6), bytes.skip(k))
    }

    #[verifier::rlimit(40)]
    fn encode_internal(&self, vec: &mut Vec<u8>) {
        let ghost v0 = vec@;
        self.0.encode_internal(vec);
        let ghost v1 = vec@;
        self.1.encode_internal(vec);
        let ghost v2 = vec@;
        self.2.encode_internal(vec);
        let ghost v3 = vec@;
        self.3.encode_internal(vec);
        let ghost v4 = vec@;
        self.4.encode_internal(vec);
        let ghost v5 = vec@;
        self.5.encode_internal(vec);
        let ghost v6 = vec@;
        self.6.encode_internal(vec);
        proof {
            lemma_prefix_split(v0, v1);
            lemma_prefix_split(v1, v2);
            lemma_prefix_split(v2, v3);
            lemma_prefix_split(v3, v4);
            lemma_prefix_split(v4, v5);
            lemma_prefix_split(v5, v6);
            lemma_prefix_split(v6, vec@);
            if Self::well_behaved() {
                assert(vec@.skip(vec@.len() as int) =~= Seq::<u8>::empty());
                let s6 = vec@.skip(v6.len() as int);
                let k6 = vec@.len() - v6.len();
                assert(s6.take(k6) =~= vec@.skip(v6.len() as int));
                assert(s6.skip(k6) =~= vec@.skip(vec@.len() as int));
                assert(T6::spec_encoding((self.6.model(),).0, s6.take(k6)));
                assert(<(T6,) as Encode>::spec_encoding((self.6.model(),), s6));
                let s5 = vec@.skip(v5.len() as int);
                let k5 = v6.len() - v5.len();
                assert(s5.take(k5) =~= v6.skip(v5.len() as int));
                assert(s5.skip(k5) =~= vec@.skip(v6.len() as int));
                assert(T5::spec_encoding((self.5.model(), self.6.model()).0, s5.take(k5)));
                assert(<(T5, T6) as Encode>::spec_encoding((self.5.model(), self.6.model()), s5));
                let s4 = vec@.skip(v4.len() as int);
                let k4 = v5.len() - v4.len();
                assert(s4.take(k4) =~= v5.skip(v4.len() as int));
                assert(s4.skip(k4) =~= vec@.skip(v5.len() as int));
                assert(T4::spec_encoding((self.4.model(), self.5.model(), self.6.model()).0, s4.take(k4)));
                assert(<(T4, T5, T6) as Encode>::spec_encoding((self.4.model(), self.5.model(), self.6.model()), s4));
                let s3 = vec@.skip(v3.len() as int);
                let k3 = v4.len() - v3.len();
                assert(s3.take(k3) =~= v4.skip(v3.len() as int));
                assert(s3.skip(k3) =~= vec@.skip(v4.len() as int));
                assert(T3::spec_encoding((self.3.model(), self.4.model(), self.5.model(), self.6.model()).0, s3.take(k3)));
                assert(<(T3, T4, T5, T6) as Encode>::spec_encoding((self.3.model(), self.4.model(), self.5.model(), self.6.model()), s3));
                let s2 = vec@.skip(v2.len() as int);
                let k2 = v3.len() - v2.len();
                assert(s2.take(k2) =~= v3.skip(v2.len() as int));
                assert(s2.skip(k2) =~= vec@.skip(v3.len() as int));
                assert(T2::spec_encoding((self.2.model(), self.3.model(), self.4.model(), self.5.model(), self.6.model()).0, s2.take(k2)));
                assert(<(T2, T3, T4, T5, T6) as Encode>::spec_encoding((self.2.model(), self.3.model(), self.4.model(), self.5.model(), self.6.model()), s2));
                let s1 = vec@.skip(v1.len() as int);
                let k1 = v2.len() - v1.len();
                assert(s1.take(k1) =~= v2.skip(v1.len() as int));
                assert(s1.skip(k1) =~= vec@.skip(v2.len() as int));
                assert(T1::spec_encoding((self.1.model(), self.2.model(), self.3.model(), self.4.model(), self.5.model(), self.6.model()).0, s1.take(k1)));
                assert(<(T1, T2, T3, T4, T5, T6) as Encode>::spec_encoding((self.1.model(), self.2.model(), self.3.model(), self.4.model(), self.5.model(), self.6.model()), s1));
                let s0 = vec@.skip(v0.len() as int);
                let k0 = v1.len() - v0.len();
                assert(s0.take(k0) =~= v1.skip(v0.len() as int));
                assert(s0.skip(k0) =~= vec@.skip(v1.len() as int));
                assert(T0::spec_encoding((self.0.model(), self.1.model(), self.2.model(), self.3.model(), self.4.model(), self.5.model(), self.6.model()).0, s0.take(k0)));
                assert(<(T0, T1, T2, T3, T4, T5, T6) as Encode>::spec_encoding((self.0.model(), self.1.model(), self.2.model(), self.3.model(), self.4.model(), self.5.model(), self.6.model()), s0));
            }
        }
    }
}

impl<T0: Encode, T1: Encode, T2: Encode, T3: Encode, T4: Encode, T5: Encode, T6: Encode, T7: Encode> Encode for (T0, T1, T2, T3, T4, T5, T6, T7) {
    /// An encoding of the first item, then one of the tuple of the others.
    open spec fn spec_encoding(m: Self::M, bytes: Seq<u8>) -> bool {
        exists|k: int|
            0 <= k <= bytes.len() && #[trigger] T0::spec_encoding(m.0, bytes.take(k))
                && <(T1, T2, T3, T4, T5, T6, T7) as Encode>::spec_encoding((m.1, m.2, m.3, m.4, m.5, m.6, m.7), bytes.skip(k))
    }

    #[verifier::rlimit(40)]
    fn encode_internal(&self, vec: &mut Vec<u8>) {
        let ghost v0 = vec@;
        self.0.encode_internal(vec);
        let ghost v1 = vec@;
        self.1.encode_internal(vec);
        let ghost v2 = vec@;
        self.2.encode_internal(vec);
        let ghost v3 = vec@;
        self.3.encode_internal(vec);
        let ghost v4 = vec@;
        self.4.encode_internal(vec);
        let ghost v5 = vec@;
        self.5.encode_internal(vec);
        let ghost v6 = vec@;
        self.6.encode_internal(vec);
        let ghost v7 = vec@;
        self.7.encode_internal(vec);
        proof {
            lemma_prefix_split(v0, v1);
            lemma_prefix_split(v1, v2);
            lemma_prefix_split(v2, v3);
            lemma_prefix_split(v3, v4);
            lemma_prefix_split(v4, v5);
            lemma_prefix_split(v5, v6);
            lemma_prefix_split(v6, v7);
            lemma_prefix_split(v7, vec@);
            if Self::well_behaved() {
                assert(vec@.skip(vec@.len() as int) =~= Seq::<u8>::empty());
                let s7 = vec@.skip(v7.len() as int);
                let k7 = vec@.len() - v7.len();
                assert(s7.take(k7) =~= vec@.skip(v7.len() as int));
                assert(s7.skip(k7) =~= vec@.skip(vec@.len() as int));
                assert(T7::spec_encoding((self.7.model(),).0, s7.take(k7)));
                assert(<(T7,) as Encode>::spec_encoding((self.7.model(),), s7));
                let s6 = vec@.skip(v6.len() as int);
                let k6 = v7.len() - v6.len();
                assert(s6.take(k6) =~= v7.skip(v6.len() as int));
                assert(s6.skip(k6) =~= vec@.skip(v7.len() as int));
                assert(T6::spec_encoding((self.6.model(), self.7.model()).0, s6.take(k6)));
                assert(<(T6, T7) as Encode>::spec_encoding((self.6.model(), self.7.model()), s6));
                let s5 = vec@.skip(v5.len() as int);
                let k5 = v6.len() - v5.len();
                assert(s5.take(k5) =~= v6.skip(v5.len() as int));
                assert(s5.skip(k5) =~= vec@.skip(v6.len() as int));
                assert(T5::spec_encoding((self.5.model(), self.6.model(), self.7.model()).0, s5.take(k5)));
                assert(<(T5, T6, T7) as Encode>::spec_encoding((self.5.model(), self.6.model(), self.7.model()), s5));
                let s4 = vec@.skip(v4.len() as int);
                let k4 = v5.len() - v4.len();
                assert(s4.take(k4) =~= v5.skip(v4.len() as int));
                assert(s4.skip(k4) =~= vec@.skip(v5.len() as int));
                assert(T4::spec_encoding((self.4.model(), self.5.model(), self.6.model(), self.7.model()).0, s4.take(k4)));
                assert(<(T4, T5, T6, T7) as Encode>::spec_encoding((self.4.model(), self.5.model(), self.6.model(), self.7.model()), s4));
                let s3 = vec@.skip(v3.len() as int);
                let k3 = v4.len() - v3.len();
                assert(s3.take(k3) =~= v4.skip(v3.len() as int));
                assert(s3.skip(k3) =~= vec@.skip(v4.len() as int));
                assert(T3::spec_encoding((self.3.model(), self.4.model(), self.5.model(), self.6.model(), self.7.model()).0, s3.take(k3)));
                assert(<(T3, T4, T5, T6, T7) as Encode>::spec_encoding((self.3.model(), self.4.model(), self.5.model(), self.6.model(), self.7.model()), s3));
                let s2 = vec@.skip(v2.len() as int);
                let k2 = v3.len() - v2.len();
                assert(s2.take(k2) =~= v3.skip(v2.len() as int));
                assert(s2.skip(k2) =~= vec@.skip(v3.len() as int));
                assert(T2::spec_encoding((self.2.model(), self.3.model(), self.4.model(), self.5.model(), self.6.model(), self.7.model()).0, s2.take(k2)));
                assert(<(T2, T3, T4, T5, T6, T7) as Encode>::spec_encoding((self.2.model(), self.3.model(), self.4.model(), self.5.model(), self.6.model(), self.7.model()), s2));
                let s1 = vec@.skip(v1.len() as int);
                let k1 = v2.len() - v1.len();
                assert(s1.take(k1) =~= v2.skip(v1.len() as int));
                assert(s1.skip(k1) =~= vec@.skip(v2.len() as int));
                assert(T1::spec_encoding((self.1.model(), self.2.model(), self.3.model(), self.4.model(), self.5.model(), self.6.model(), self.7.model()).0, s1.take(k1)));
                assert(<(T1, T2, T3, T4, T5, T6, T7) as Encode>::spec_encoding((self.1.model(), self.2.model(), self.3.model(), self.4.model(), self.5.model(), self.6.model(), self.7.model()), s1));
                let s0 = vec@.skip(v0.len() as int);
                let k0 = v1.len() - v0.len();
                assert(s0.take(k0) =~= v1.skip(v0.len() as int));
                assert(s0.skip(k0) =~= vec@.skip(v1.len() as int));
                assert(T0::spec_encoding((self.0.model(), self.1.model(), self.2.model(), self.3.model(), self.4.model(), self.5.model(), self.6.model(), self.7.model()).0, s0.take(k0)));
                assert(<(T0, T1, T2, T3, T4, T5, T6, T7) as Encode>::spec_encoding((self.0.model(), self.1.model(), self.2.model(), self.3.model(), self.4.model(), self.5.model(), self.6.model(), self.7.model()), s0));
            }
        }
    }
}

impl<T0: Encode, T1: Encode, T2: Encode, T3: Encode, T4: Encode, T5: Encode, T6: Encode, T7: Encode, T8: Encode> Encode for (T0, T1, T2, T3, T4, T5, T6, T7, T8) {
    /// An encoding of the first item, then one of the tuple of the others.
    open spec fn spec_encoding(m: Self::M, bytes: Seq<u8>) -> bool {
        exists|k: int|
            0 <= k <= bytes.len() && #[trigger] T0::spec_encoding(m.0, bytes.take(k))
                && <(T1, T2, T3, T4, T5, T6, T7, T8) as Encode>::spec_encoding((m.1, m.2, m.3, m.4, m.5, m.6, m.7, m.8), bytes.skip(k))
    }

    #[verifier::rlimit(40)]
    fn encode_internal(&self, vec: &mut Vec<u8>) {
        let ghost v0 = vec@;
        self.0.encode_internal(vec);
        let ghost v1 = vec@;
        self.1.encode_internal(vec);
        let ghost v2 = vec@;
        self.2.encode_internal(vec);
        let ghost v3 = vec@;
        self.3.encode_internal(vec);
        let ghost v4 = vec@;
        self.4.encode_internal(vec);
        let ghost v5 = vec@;
        self.5.encode_internal(vec);
        let ghost v6 = vec@;
        self.6.encode_internal(vec);
        let ghost v7 = vec@;
        self.7.encode_internal(vec);
        let ghost v8 = vec@;
        self.8.encode_internal(vec);
        proof {
            lemma_prefix_split(v0, v1);
            lemma_prefix_split(v1, v2);
            lemma_prefix_split(v2, v3);
            lemma_prefix_split(v3, v4);
            lemma_prefix_split(v4, v5);
            lemma_prefix_split(v5, v6);
            lemma_prefix_split(v6, v7);
            lemma_prefix_split(v7, v8);
            lemma_prefix_split(v8, vec@);
            if Self::well_behaved() {
                assert(vec@.skip(vec@.len() as int) =~= Seq::<u8>::empty());
                let s8 = vec@.skip(v8.len() as int);
                let k8 = vec@.len() - v8.len();
                assert(s8.take(k8) =~= vec@.skip(v8.len() as int));
                assert(s8.skip(k8) =~= vec@.skip(vec@.len() as int));
                assert(T8::spec_encoding((self.8.model(),).0, s8.take(k8)));
                assert(<(T8,) as Encode>::spec_encoding((self.8.model(),), s8));
                let s7 = vec@.skip(v7.len() as int);
                let k7 = v8.len() - v7.len();
                assert(s7.take(k7) =~= v8.skip(v7.len() as int));
                assert(s7.skip(k7) =~= vec@.skip(v8.len() as int));
                assert(T7::spec_encoding((self.7.model(), self.8.model()).0, s7.take(k7)));
                assert(<(T7, T8) as Encode>::spec_encoding((self.7.model(), self.8.model()), s7));
                let s6 = vec@.skip(v6.len() as int);
                let k6 = v7.len() - v6.len();
                assert(s6.take(k6) =~= v7.skip(v6.len() as int));
                assert(s6.skip(k6) =~= vec@.skip(v7.len() as int));
                assert(T6::spec_encoding((self.6.model(), self.7.model(), self.8.model()).0, s6.take(k6)));
                assert(<(T6, T7, T8) as Encode>::spec_encoding((self.6.model(), self.7.model(), self.8.model()), s6));
                let s5 = vec@.skip(v5.len() as int);
                let k5 = v6.len() - v5.len();
                assert(s5.take(k5) =~= v6.skip(v5.len() as int));
                assert(s5.skip(k5) =~= vec@.skip(v6.len() as int));
                assert(T5::spec_encoding((self.5.model(), self.6.model(), self.7.model(), self.8.model()).0, s5.take(k5)));
                assert(<(T5, T6, T7, T8) as Encode>::spec_encoding((self.5.model(), self.6.model(), self.7.model(), self.8.model()), s5));
                let s4 = vec@.skip(v4.len() as int);
                let k4 = v5.len() - v4.len();
                assert(s4.take(k4) =~= v5.skip(v4.len() as int));
                assert(s4.skip(k4) =~= vec@.skip(v5.len() as int));
                assert(T4::spec_encoding((self.4.model(), self.5.model(), self.6.model(), self.7.model(), self.8.model()).0, s4.take(k4)));
                assert(<(T4, T5, T6, T7, T8) as Encode>::spec_encoding((self.4.model(), self.5.model(), self.6.model(), self.7.model(), self.8.model()), s4));
                let s3 = vec@.skip(v3.len() as int);
                let k3 = v4.len() - v3.len();
                assert(s3.take(k3) =~= v4.skip(v3.len() as int));
                assert(s3.skip(k3) =~= vec@.skip(v4.len() as int));
                assert(T3::spec_encoding((self.3.model(), self.4.model(), self.5.model(), self.6.model(), self.7.model(), self.8.model()).0, s3.take(k3)));
                assert(<(T3, T4, T5, T6, T7, T8) as Encode>::spec_encoding((self.3.model(), self.4.model(), self.5.model(), self.6.model(), self.7.model(), self.8.model()), s3));
                let s2 = vec@.skip(v2.len() as int);
                let k2 = v3.len() - v2.len();
                assert(s2.take(k2) =~= v3.skip(v2.len() as int));
                assert(s2.skip(k2) =~= vec@.skip(v3.len() as int));
                assert(T2::spec_encoding((self.2.model(), self.3.model(), self.4.model(), self.5.model(), self.6.model(), self.7.model(), self.8.model()).0, s2.take(k2)));
                assert(<(T2, T3, T4, T5, T6, T7, T8) as Encode>::spec_encoding((self.2.model(), self.3.model(), self.4.model(), self.5.model(), self.6.model(), self.7.model(), self.8.model()), s2));
                let s1 = vec@.skip(v1.len() as int);
                let k1 = v2.len() - v1.len();
                assert(s1.take(k1) =~= v2.skip(v1.len() as int));
                assert(s1.skip(k1) =~= vec@.skip(v2.len() as int));
                assert(T1::spec_encoding((self.1.model(), self.2.model(), self.3.model(), self.4.model(), self.5.model(), self.6.model(), self.7.model(), self.8.model()).0, s1.take(k1)));
                assert(<(T1, T2, T3, T4, T5, T6, T7, T8) as Encode>::spec_encoding((self.1.model(), self.2.model(), self.3.model(), self.4.model(), self.5.model(), self.6.model(), self.7.model(), self.8.model()), s1));
                let s0 = vec@.skip(v0.len() as int);
                let k0 = v1.len() - v0.len();
                assert(s0.take(k0) =~= v1.skip(v0.len() as int));
                assert(s0.skip(k0) =~= vec@.skip(v1.len() as int));
                assert(T0::spec_encoding((self.0.model(), self.1.model(), self.2.model(), self.3.model(), self.4.model(), self.5.model(), self.6.model(), self.7.model(), self.8.model()).0, s0.take(k0)));
                assert(<(T0, T1, T2, T3, T4, T5, T6, T7, T8) as Encode>::spec_encoding((self.0.model(), self.1.model(), self.2.model(), self.3.model(), self.4.model(), self.5.model(), self.6.model(), self.7.model(), self.8.model()), s0));
            }
        }
    }
}

impl<T0: Encode, T1: Encode, T2: Encode, T3: Encode, T4: Encode, T5: Encode, T6: Encode, T7: Encode, T8: Encode, T9: Encode> Encode for (T0, T1, T2, T3, T4, T5, T6, T7, T8, T9) {
    /// An encoding of the first item, then one of the tuple of the others.
    open spec fn spec_encoding(m: Self::M, bytes: Seq<u8>) -> bool {
        exists|k: int|
            0 <= k <= bytes.len() && #[trigger] T0::spec_encoding(m.0, bytes.take(k))
                && <(T1, T2, T3, T4, T5, T6, T7, T8, T9) as Encode>::spec_encoding((m.1, m.2, m.3, m.4, m.5, m.6, m.7, m.8, m.9), bytes.skip(k))
    }

    #[verifier::rlimit(40)]
    fn encode_internal(&self, vec: &mut Vec<u8>) {
        let ghost v0 = vec@;
        self.0.encode_internal(vec);
        let ghost v1 = vec@;
        self.1.encode_internal(vec);
        let ghost v2 = vec@;
        self.2.encode_internal(vec);
        let ghost v3 = vec@;
        self.3.encode_internal(vec);
        let ghost v4 = vec@;
        self.4.encode_internal(vec);
        let ghost v5 = vec@;
        self.5.encode_internal(vec);
        let ghost v6 = vec@;
        self.6.encode_internal(vec);
        let ghost v7 = vec@;
        self.7.encode_internal(vec);
        let ghost v8 = vec@;
        self.8.encode_internal(vec);
        let ghost v9 = vec@;
        self.9.encode_internal(vec);
        proof {
            lemma_prefix_split(v0, v1);
            lemma_prefix_split(v1, v2);
            lemma_prefix_split(v2, v3);
            lemma_prefix_split(v3, v4);
            lemma_prefix_split(v4, v5);
            lemma_prefix_split(v5, v6);
            lemma_prefix_split(v6, v7);
            lemma_prefix_split(v7, v8);
            lemma_prefix_split(v8, v9);
            lemma_prefix_split(v9, vec@);
            if Self::well_behaved() {
                assert(vec@.skip(vec@.len() as int) =~= Seq::<u8>::empty());
                let s9 = vec@.skip(v9.len() as int);
                let k9 = vec@.len() - v9.len();
                assert(s9.take(k9) =~= vec@.skip(v9.len() as int));
                assert(s9.skip(k9) =~= vec@.skip(vec@.len() as int));
                assert(T9::spec_encoding((self.9.model(),).0, s9.take(k9)));
                assert(<(T9,) as Encode>::spec_encoding((self.9.model(),), s9));
                let s8 = vec@.skip(v8.len() as int);
                let k8 = v9.len() - v8.len();
                assert(s8.take(k8) =~= v9.skip(v8.len() as int));
                assert(s8.skip(k8) =~= vec@.skip(v9.len() as int));
                assert(T8::spec_encoding((self.8.model(), self.9.model()).0, s8.take(k8)));
                assert(<(T8, T9) as Encode>::spec_encoding((self.8.model(), self.9.model()), s8));
                let s7 = vec@.skip(v7.len() as int);
                let k7 = v8.len() - v7.len();
                assert(s7.take(k7) =~= v8.skip(v7.len() as int));
                assert(s7.skip(k7) =~= vec@.skip(v8.len() as int));
                assert(T7::spec_encoding((self.7.model(), self.8.model(), self.9.model()).0, s7.take(k7)));
                assert(<(T7, T8, T9) as Encode>::spec_encoding((self.7.model(), self.8.model(), self.9.model()), s7));
                let s6 = vec@.skip(v6.len() as int);
                let k6 = v7.len() - v6.len();
                assert(s6.take(k6) =~= v7.skip(v6.len() as int));
                assert(s6.skip(k6) =~= vec@.skip(v7.len() as int));
                assert(T6::spec_encoding((self.6.model(), self.7.model(), self.8.model(), self.9.model()).0, s6.take(k6)));
                assert(<(T6, T7, T8, T9) as Encode>::spec_encoding((self.6.model(), self.7.model(), self.8.model(), self.9.model()), s6));
                let s5 = vec@.skip(v5.len() as int);
                let k5 = v6.len() - v5.len();
                assert(s5.take(k5) =~= v6.skip(v5.len() as int));
                assert(s5.skip(k5) =~= vec@.skip(v6.len() as int));
                assert(T5::spec_encoding((self.5.model(), self.6.model(), self.7.model(), self.8.model(), self.9.model()).0, s5.take(k5)));
                assert(<(T5, T6, T7, T8, T9) as Encode>::spec_encoding((self.5.model(), self.6.model(), self.7.model(), self.8.model(), self.9.model()), s5));
                let s4 = vec@.skip(v4.len() as int);
                let k4 = v5.len() - v4.len();
                assert(s4.take(k4) =~= v5.skip(v4.len() as int));
                assert(s4.skip(k4) =~= vec@.skip(v5.len() as int));
                assert(T4::spec_encoding((self.4.model(), self.5.model(), self.6.model(), self.7.model(), self.8.model(), self.9.model()).0, s4.take(k4)));
                assert(<(T4, T5, T6, T7, T8, T9) as Encode>::spec_encoding((self.4.model(), self.5.model(), self.6.model(), self.7.model(), self.8.model(), self.9.model()), s4));
                let s3 = vec@.skip(v3.len() as int);
                let k3 = v4.len() - v3.len();
                assert(s3.take(k3) =~= v4.skip(v3.len() as int));
                assert(s3.skip(k3) =~= vec@.skip(v4.len() as int));
                assert(T3::spec_encoding((self.3.model(), self.4.model(), self.5.model(), self.6.model(), self.7.model(), self.8.model(), self.9.model()).0, s3.take(k3)));
                assert(<(T3, T4, T5, T6, T7, T8, T9) as Encode>::spec_encoding((self.3.model(), self.4.model(), self.5.model(), self.6.model(), self.7.model(), self.8.model(), self.9.model()), s3));
                let s2 = vec@.skip(v2.len() as int);
                let k2 = v3.len() - v2.len();
                assert(s2.take(k2) =~= v3.skip(v2.len() as int));
                assert(s2.skip(k2) =~= vec@.skip(v3.len() as int));
                assert(T2::spec_encoding((self.2.model(), self.3.model(), self.4.model(), self.5.model(), self.6.model(), self.7.model(), self.8.model(), self.9.model()).0, s2.take(k2)));
                assert(<(T2, T3, T4, T5, T6, T7, T8, T9) as Encode>::spec_encoding((self.2.model(), self.3.model(), self.4.model(), self.5.model(), self.6.model(), self.7.model(), self.8.model(), self.9.model()), s2));
                let s1 = vec@.skip(v1.len() as int);
                let k1 = v2.len() - v1.len();
                assert(s1.take(k1) =~= v2.skip(v1.len() as int));
                assert(s1.skip(k1) =~= vec@.skip(v2.len() as int));
                assert(T1::spec_encoding((self.1.model(), self.2.model(), self.3.model(), self.4.model(), self.5.model(), self.6.model(), self.7.model(), self.8.model(), self.9.model()).0, s1.take(k1)));
                assert(<(T1, T2, T3, T4, T5, T6, T7, T8, T9) as Encode>::spec_encoding((self.1.model(), self.2.model(), self.3.model(), self.4.model(), self.5.model(), self.6.model(), self.7.model(), self.8.model(), self.9.model()), s1));
                let s0 = vec@.skip(v0.len() as int);
                let k0 = v1.len() - v0.len();
                assert(s0.take(k0) =~= v1.skip(v0.len() as int));
                assert(s0.skip(k0) =~= vec@.skip(v1.len() as int));
                assert(T0::spec_encoding((self.0.model(), self.1.model(), self.2.model(), self.3.model(), self.4.model(), self.5.model(), self.6.model(), self.7.model(), self.8.model(), self.9.model()).0, s0.take(k0)));
                assert(<(T0, T1, T2, T3, T4, T5, T6, T7, T8, T9) as Encode>::spec_encoding((self.0.model(), self.1.model(), self.2.model(), self.3.model(), self.4.model(), self.5.model(), self.6.model(), self.7.model(), self.8.model(), self.9.model()), s0));
            }
        }
    }
}

impl<T0: Encode, T1: Encode, T2: Encode, T3: Encode, T4: Encode, T5: Encode, T6: Encode, T7: Encode, T8: Encode, T9: Encode, T10: Encode> Encode for (T0, T1, T2, T3, T4, T5, T6, T7, T8, T9, T10) {
    /// An encoding of the first item, then one of the tuple of the others.
    open spec fn spec_encoding(m: Self::M, bytes: Seq<u8>) -> bool {
        exists|k: int|
            0 <= k <= bytes.len() && #[trigger] T0::spec_encoding(m.0, bytes.take(k))
                && <(T1, T2, T3, T4, T5, T6, T7, T8, T9, T10) as Encode>::spec_encoding((m.1, m.2, m.3, m.4, m.5, m.6, m.7, m.8, m.9, m.10), bytes.skip(k))
    }

    #[verifier::rlimit(40)]
    fn encode_internal(&self, vec: &mut Vec<u8>) {
        let ghost v0 = vec@;
        self.0.encode_internal(vec);
        let ghost v1 = vec@;
        self.1.encode_internal(vec);
        let ghost v2 = vec@;
        self.2.encode_internal(vec);
        let ghost v3 = vec@;
        self.3.encode_internal(vec);
        let ghost v4 = vec@;
        self.4.encode_internal(vec);
        let ghost v5 = vec@;
        self.5.encode_internal(vec);
        let ghost v6 = vec@;
        self.6.encode_internal(vec);
        let ghost v7 = vec@;
        self.7.encode_internal(vec);
        let ghost v8 = vec@;
        self.8.encode_internal(vec);
        let ghost v9 = vec@;
        self.9.encode_internal(vec);
        let ghost v10 = vec@;
        self.10.encode_internal(vec);
        proof {
            lemma_prefix_split(v0, v1);
            lemma_prefix_split(v1, v2);
            lemma_prefix_split(v2, v3);
            lemma_prefix_split(v3, v4);
            lemma_prefix_split(v4, v5);
            lemma_prefix_split(v5, v6);
            lemma_prefix_split(v6, v7);
            lemma_prefix_split(v7, v8);
            lemma_prefix_split(v8, v9);
            lemma_prefix_split(v9, v10);
            lemma_prefix_split(v10, vec@);
            if Self::well_behaved() {
                assert(vec@.skip(vec@.len() as int) =~= Seq::<u8>::empty());
                let s10 = vec@.skip(v10.len() as int);
                let k10 = vec@.len() - v10.len();
                assert(s10.take(k10) =~= vec@.skip(v10.len() as int));
                assert(s10.skip(k10) =~= vec@.skip(vec@.len() as int));
                assert(T10::spec_encoding((self.10.model(),).0, s10.take(k10)));
                assert(<(T10,) as Encode>::spec_encoding((self.10.model(),), s10));
                let s9 = vec@.skip(v9.len() as int);
                let k9 = v10.len() - v9.len();
                assert(s9.take(k9) =~= v10.skip(v9.len() as int));
                assert(s9.skip(k9) =~= vec@.skip(v10.len() as int));
                assert(T9::spec_encoding((self.9.model(), self.10.model()).0, s9.take(k9)));
                assert(<(T9, T10) as Encode>::spec_encoding((self.9.model(), self.10.model()), s9));
                let s8 = vec@.skip(v8.len() as int);
                let k8 = v9.len() - v8.len();
                assert(s8.take(k8) =~= v9.skip(v8.len() as int));
                assert(s8.skip(k8) =~= vec@.skip(v9.len() as int));
                assert(T8::spec_encoding((self.8.model(), self.9.model(), self.10.model()).0, s8.take(k8)));
                assert(<(T8, T9, T10) as Encode>::spec_encoding((self.8.model(), self.9.model(), self.10.model()), s8));
                let s7 = vec@.skip(v7.len() as int);
                let k7 = v8.len() - v7.len();
                assert(s7.take(k7) =~= v8.skip(v7.len() as int));
                assert(s7.skip(k7) =~= vec@.skip(v8.len() as int));
                assert(T7::spec_encoding((self.7.model(), self.8.model(), self.9.model(), self.10.model()).0, s7.take(k7)));
                assert(<(T7, T8, T9, T10) as Encode>::spec_encoding((self.7.model(), self.8.model(), self.9.model(), self.10.model()), s7));
                let s6 = vec@.skip(v6.len() as int);
                let k6 = v7.len() - v6.len();
                assert(s6.take(k6) =~= v7.skip(v6.len() as int));
                assert(s6.skip(k6) =~= vec@.skip(v7.len() as int));
                assert(T6::spec_encoding((self.6.model(), self.7.model(), self.8.model(), self.9.model(), self.10.model()).0, s6.take(k6)));
                assert(<(T6, T7, T8, T9, T10) as Encode>::spec_encoding((self.6.model(), self.7.model(), self.8.model(), self.9.model(), self.10.model()), s6));
                let s5 = vec@.skip(v5.len() as int);
                let k5 = v6.len() - v5.len();
                assert(s5.take(k5) =~= v6.skip(v5.len() as int));
                assert(s5.skip(k5) =~= vec@.skip(v6.len() as int));
                assert(T5::spec_encoding((self.5.model(), self.6.model(), self.7.model(), self.8.model(), self.9.model(), self.10.model()).0, s5.take(k5)));
                assert(<(T5, T6, T7, T8, T9, T10) as Encode>::spec_encoding((self.5.model(), self.6.model(), self.7.model(), self.8.model(), self.9.model(), self.10.model()), s5));
                let s4 = vec@.skip(v4.len() as int);
                let k4 = v5.len() - v4.len();
                assert(s4.take(k4) =~= v5.skip(v4.len() as int));
                assert(s4.skip(k4) =~= vec@.skip(v5.len() as int));
                assert(T4::spec_encoding((self.4.model(), self.5.model(), self.6.model(), self.7.model(), self.8.model(), self.9.model(), self.10.model()).0, s4.take(k4)));
                assert(<(T4, T5, T6, T7, T8, T9, T10) as Encode>::spec_encoding((self.4.model(), self.5.model(), self.6.model(), self.7.model(), self.8.model(), self.9.model(), self.10.model()), s4));
                let s3 = vec@.skip(v3.len() as int);
                let k3 = v4.len() - v3.len();
                assert(s3.take(k3) =~= v4.skip(v3.len() as int));
                assert(s3.skip(k3) =~= vec@.skip(v4.len() as int));
                assert(T3::spec_encoding((self.3.model(), self.4.model(), self.5.model(), self.6.model(), self.7.model(), self.8.model(), self.9.model(), self.10.model()).0, s3.take(k3)));
                assert(<(T3, T4, T5, T6, T7, T8, T9, T10) as Encode>::spec_encoding((self.3.model(), self.4.model(), self.5.model(), self.6.model(), self.7.model(), self.8.model(), self.9.model(), self.10.model()), s3));
                let s2 = vec@.skip(v2.len() as int);
                let k2 = v3.len() - v2.len();
                assert(s2.take(k2) =~= v3.skip(v2.len() as int));
                assert(s2.skip(k2) =~= vec@.skip(v3.len() as int));
                assert(T2::spec_encoding((self.2.model(), self.3.model(), self.4.model(), self.5.model(), self.6.model(), self.7.model(), self.8.model(), self.9.model(), self.10.model()).0, s2.take(k2)));
                assert(<(T2, T3, T4, T5, T6, T7, T8, T9, T10) as Encode>::spec_encoding((self.2.model(), self.3.model(), self.4.model(), self.5.model(), self.6.model(), self.7.model(), self.8.model(), self.9.model(), self.10.model()), s2));
                let s1 = vec@.skip(v1.len() as int);
                let k1 = v2.len() - v1.len();
                assert(s1.take(k1) =~= v2.skip(v1.len() as int));
                assert(s1.skip(k1) =~= vec@.skip(v2.len() as int));
                assert(T1::spec_encoding((self.1.model(), self.2.model(), self.3.model(), self.4.model(), self.5.model(), self.6.model(), self.7.model(), self.8.model(), self.9.model(), self.10.model()).0, s1.take(k1)));
                assert(<(T1, T2, T3, T4, T5, T6, T7, T8, T9, T10) as Encode>::spec_encoding((self.1.model(), self.2.model(), self.3.model(), self.4.model(), self.5.model(), self.6.model(), self.7.model(), self.8.model(), self.9.model(), self.10.model()), s1));
                let s0 = vec@.skip(v0.len() as int);
                let k0 = v1.len() - v0.len();
                assert(s0.take(k0) =~= v1.skip(v0.len() as int));
                assert(s0.skip(k0) =~= vec@.skip(v1.len() as int));
                assert(T0::spec_encoding((self.0.model(), self.1.model(), self.2.model(), self.3.model(), self.4.model(), self.5.model(), self.6.model(), self.7.model(), self.8.model(), self.9.model(), self.10.model()).0, s0.take(k0)));
                assert(<(T0, T1, T2, T3, T4, T5, T6, T7, T8, T9, T10) as Encode>::spec_encoding((self.0.model(), self.1.model(), self.2.model(), self.3.model(), self.4.model(), self.5.model(), self.6.model(), self.7.model(), self.8.model(), self.9.model(), self.10.model()), s0));
            }
        }
    }
}

impl<T0: Encode, T1: Encode, T2: Encode, T3: Encode, T4: Encode, T5: Encode, T6: Encode, T7: Encode, T8: Encode, T9: Encode, T10: Encode, T11: Encode> Encode for (T0, T1, T2, T3, T4, T5, T6, T7, T8, T9, T10, T11) {
    /// An encoding of the first item, then one of the tuple of the others.
    open spec fn spec_encoding(m: Self::M, bytes: Seq<u8>) -> bool {
        exists|k: int|
            0 <= k <= bytes.len() && #[trigger] T0::spec_encoding(m.0, bytes.take(k))
                && <(T1, T2, T3, T4, T5, T6, T7, T8, T9, T10, T11) as Encode>::spec_encoding((m.1, m.2, m.3, m.4, m.5, m.6, m.7, m.8, m.9, m.10, m.11), bytes.skip(k))
    }

    #[verifier::rlimit(40)]
    fn encode_internal(&self, vec: &mut Vec<u8>) {
        let ghost v0 = vec@;
        self.0.encode_internal(vec);
        let ghost v1 = vec@;
        self.1.encode_internal(vec);
        let ghost v2 = vec@;
        self.2.encode_internal(vec);
        let ghost v3 = vec@;
        self.3.encode_internal(vec);
        let ghost v4 = vec@;
        self.4.encode_internal(vec);
        let ghost v5 = vec@;
        self.5.encode_internal(vec);
        let ghost v6 = vec@;
        self.6.encode_internal(vec);
        let ghost v7 = vec@;
        self.7.encode_internal(vec);
        let ghost v8 = vec@;
        self.8.encode_internal(vec);
        let ghost v9 = vec@;
        self.9.encode_internal(vec);
        let ghost v10 = vec@;
        self.10.encode_internal(vec);
        let ghost v11 = vec@;
        self.11.encode_internal(vec);
        proof {
            lemma_prefix_split(v0, v1);
            lemma_prefix_split(v1, v2);
            lemma_prefix_split(v2, v3);
            lemma_prefix_split(v3, v4);
            lemma_prefix_split(v4, v5);
            lemma_prefix_split(v5, v6);
            lemma_prefix_split(v6, v7);
            lemma_prefix_split(v7, v8);
            lemma_prefix_split(v8, v9);
            lemma_prefix_split(v9, v10);
            lemma_prefix_split(v10, v11);
            lemma_prefix_split(v11, vec@);
            if Self::well_behaved() {
                assert(vec@.skip(vec@.len() as int) =~= Seq::<u8>::empty());
                let s11 = vec@.skip(v11.len() as int);
                let k11 = vec@.len() - v11.len();
                assert(s11.take(k11) =~= vec@.skip(v11.len() as int));
                assert(s11.skip(k11) =~= vec@.skip(vec@.len() as int));
                assert(T11::spec_encoding((self.11.model(),).0, s11.take(k11)));
                assert(<(T11,) as Encode>::spec_encoding((self.11.model(),), s11));
                let s10 = vec@.skip(v10.len() as int);
                let k10 = v11.len() - v10.len();
                assert(s10.take(k10) =~= v11.skip(v10.len() as int));
                assert(s10.skip(k10) =~= vec@.skip(v11.len() as int));
                assert(T10::spec_encoding((self.10.model(), self.11.model()).0, s10.take(k10)));
                assert(<(T10, T11) as Encode>::spec_encoding((self.10.model(), self.11.model()), s10));
                let s9 = vec@.skip(v9.len() as int);
                let k9 = v10.len() - v9.len();
                assert(s9.take(k9) =~= v10.skip(v9.len() as int));
                assert(s9.skip(k9) =~= vec@.skip(v10.len() as int));
                assert(T9::spec_encoding((self.9.model(), self.10.model(), self.11.model()).0, s9.take(k9)));
                assert(<(T9, T10, T11) as Encode>::spec_encoding((self.9.model(), self.10.model(), self.11.model()), s9));
                let s8 = vec@.skip(v8.len() as int);
                let k8 = v9.len() - v8.len();
                assert(s8.take(k8) =~= v9.skip(v8.len() as int));
                assert(s8.skip(k8) =~= vec@.skip(v9.len() as int));
                assert(T8::spec_encoding((self.8.model(), self.9.model(), self.10.model(), self.11.model()).0, s8.take(k8)));
                assert(<(T8, T9, T10, T11) as Encode>::spec_encoding((self.8.model(), self.9.model(), self.10.model(), self.11.model()), s8));
                let s7 = vec@.skip(v7.len() as int);
                let k7 = v8.len() - v7.len();
                assert(s7.take(k7) =~= v8.skip(v7.len() as int));
                assert(s7.skip(k7) =~= vec@.skip(v8.len() as int));
                assert(T7::spec_encoding((self.7.model(), self.8.model(), self.9.model(), self.10.model(), self.11.model()).0, s7.take(k7)));
                assert(<(T7, T8, T9, T10, T11) as Encode>::spec_encoding((self.7.model(), self.8.model(), self.9.model(), self.10.model(), self.11.model()), s7));
                let s6 = vec@.skip(v6.len() as int);
                let k6 = v7.len() - v6.len();
                assert(s6.take(k6) =~= v7.skip(v6.len() as int));
                assert(s6.skip(k6) =~= vec@.skip(v7.len() as int));
                assert(T6::spec_encoding((self.6.model(), self.7.model(), self.8.model(), self.9.model(), self.10.model(), self.11.model()).0, s6.take(k6)));
                assert(<(T6, T7, T8, T9, T10, T11) as Encode>::spec_encoding((self.6.model(), self.7.model(), self.8.model(), self.9.model(), self.10.model(), self.11.model()), s6));
                let s5 = vec@.skip(v5.len() as int);
                let k5 = v6.len() - v5.len();
                assert(s5.take(k5) =~= v6.skip(v5.len() as int));
                assert(s5.skip(k5) =~= vec@.skip(v6.len() as int));
                assert(T5::spec_encoding((self.5.model(), self.6.model(), self.7.model(), self.8.model(), self.9.model(), self.10.model(), self.11.model()).0, s5.take(k5)));
                assert(<(T5, T6, T7, T8, T9, T10, T11) as Encode>::spec_encoding((self.5.model(), self.6.model(), self.7.model(), self.8.model(), self.9.model(), self.10.model(), self.11.model()), s5));
                let s4 = vec@.skip(v4.len() as int);
                let k4 = v5.len() - v4.len();
                assert(s4.take(k4) =~= v5.skip(v4.len() as int));
                assert(s4.skip(k4) =~= vec@.skip(v5.len() as int));
                assert(T4::spec_encoding((self.4.model(), self.5.model(), self.6.model(), self.7.model(), self.8.model(), self.9.model(), self.10.model(), self.11.model()).0, s4.take(k4)));
                assert(<(T4, T5, T6, T7, T8, T9, T10, T11) as Encode>::spec_encoding((self.4.model(), self.5.model(), self.6.model(), self.7.model(), self.8.model(), self.9.model(), self.10.model(), self.11.model()), s4));
                let s3 = vec@.skip(v3.len() as int);
                let k3 = v4.len() - v3.len();
                assert(s3.take(k3) =~= v4.skip(v3.len() as int));
                assert(s3.skip(k3) =~= vec@.skip(v4.len() as int));
                assert(T3::spec_encoding((self.3.model(), self.4.model(), self.5.model(), self.6.model(), self.7.model(), self.8.model(), self.9.model(), self.10.model(), self.11.model()).0, s3.take(k3)));
                assert(<(T3, T4, T5, T6, T7, T8, T9, T10, T11) as Encode>::spec_encoding((self.3.model(), self.4.model(), self.5.model(), self.6.model(), self.7.model(), self.8.model(), self.9.model(), self.10.model(), self.11.model()), s3));
                let s2 = vec@.skip(v2.len() as int);
                let k2 = v3.len() - v2.len();
                assert(s2.take(k2) =~= v3.skip(v2.len() as int));
                assert(s2.skip(k2) =~= vec@.skip(v3.len() as int));
                assert(T2::spec_encoding((self.2.model(), self.3.model(), self.4.model(), self.5.model(), self.6.model(), self.7.model(), self.8.model(), self.9.model(), self.10.model(), self.11.model()).0, s2.take(k2)));
                assert(<(T2, T3, T4, T5, T6, T7, T8, T9, T10, T11) as Encode>::spec_encoding((self.2.model(), self.3.model(), self.4.model(), self.5.model(), self.6.model(), self.7.model(), self.8.model(), self.9.model(), self.10.model(), self.11.model()), s2));
                let s1 = vec@.skip(v1.len() as int);
                let k1 = v2.len() - v1.len();
                assert(s1.take(k1) =~= v2.skip(v1.len() as int));
                assert(s1.skip(k1) =~= vec@.skip(v2.len() as int));
                assert(T1::spec_encoding((self.1.model(), self.2.model(), self.3.model(), self.4.model(), self.5.model(), self.6.model(), self.7.model(), self.8.model(), self.9.model(), self.10.model(), self.11.model()).0, s1.take(k1)));
                assert(<(T1, T2, T3, T4, T5, T6, T7, T8, T9, T10, T11) as Encode>::spec_encoding((self.1.model(), self.2.model(), self.3.model(), self.4.model(), self.5.model(), self.6.model(), self.7.model(), self.8.model(), self.9.model(), self.10.model(), self.11.model()), s1));
                let s0 = vec@.skip(v0.len() as int);
                let k0 = v1.len() - v0.len();
                assert(s0.take(k0) =~= v1.skip(v0.len() as int));
                assert(s0.skip(k0) =~= vec@.skip(v1.len() as int));
                assert(T0::spec_encoding((self.0.model(), self.1.model(), self.2.model(), self.3.model(), self.4.model(), self.5.model(), self.6.model(), self.7.model(), self.8.model(), self.9.model(), self.10.model(), self.11.model()).0, s0.take(k0)));
                assert(<(T0, T1, T2, T3, T4, T5, T6, T7, T8, T9, T10, T11) as Encode>::spec_encoding((self.0.model(), self.1.model(), self.2.model(), self.3.model(), self.4.model(), self.5.model(), self.6.model(), self.7.model(), self.8.model(), self.9.model(), self.10.model(), self.11.model()), s0));
            }
        }
    }
}

impl<T0: Encode, T1: Encode, T2: Encode, T3: Encode, T4: Encode, T5: Encode, T6: Encode, T7: Encode, T8: Encode, T9: Encode, T10: Encode, T11: Encode, T12: Encode> Encode for (T0, T1, T2, T3, T4, T5, T6, T7, T8, T9, T10, T11, T12) {
    /// An encoding of the first item, then one of the tuple of the others.
    open spec fn spec_encoding(m: Self::M, bytes: Seq<u8>) -> bool {
        exists|k: int|
            0 <= k <= bytes.len() && #[trigger] T0::spec_encoding(m.0, bytes.take(k))
                && <(T1, T2, T3, T4, T5, T6, T7, T8, T9, T10, T11, T12) as Encode>::spec_encoding((m.1, m.2, m.3, m.4, m.5, m.6, m.7, m.8, m.9, m.10, m.11, m.12), bytes.skip(k))
    }

    #[verifier::rlimit(40)]
    fn encode_internal(&self, vec: &mut Vec<u8>) {
        let ghost v0 = vec@;
        self.0.encode_internal(vec);
        let ghost v1 = vec@;
        self.1.encode_internal(vec);
        let ghost v2 = vec@;
        self.2.encode_internal(vec);
        let ghost v3 = vec@;
        self.3.encode_internal(vec);
        let ghost v4 = vec@;
        self.4.encode_internal(vec);
        let ghost v5 = vec@;
        self.5.encode_internal(vec);
        let ghost v6 = vec@;
        self.6.encode_internal(vec);
        let ghost v7 = vec@;
        self.7.encode_internal(vec);
        let ghost v8 = vec@;
        self.8.encode_internal(vec);
        let ghost v9 = vec@;
        self.9.encode_internal(vec);
        let ghost v10 = vec@;
        self.10.encode_internal(vec);
        let ghost v11 = vec@;
        self.11.encode_internal(vec);
        let ghost v12 = vec@;
        self.12.encode_internal(vec);
        proof {
            lemma_prefix_split(v0, v1);
            lemma_prefix_split(v1, v2);
            lemma_prefix_split(v2, v3);
            lemma_prefix_split(v3, v4);
            lemma_prefix_split(v4, v5);
            lemma_prefix_split(v5, v6);
            lemma_prefix_split(v6, v7);
            lemma_prefix_split(v7, v8);
            lemma_prefix_split(v8, v9);
            lemma_prefix_split(v9, v10);
            lemma_prefix_split(v10, v11);
            lemma_prefix_split(v11, v12);
            lemma_prefix_split(v12, vec@);
            if Self::well_behaved() {
                assert(vec@.skip(vec@.len() as int) =~= Seq::<u8>::empty());
                let s12 = vec@.skip(v12.len() as int);
                let k12 = vec@.len() - v12.len();
                assert(s12.take(k12) =~= vec@.skip(v12.len() as int));
                assert(s12.skip(k12) =~= vec@.skip(vec@.len() as int));
                assert(T12::spec_encoding((self.12.model(),).0, s12.take(k12)));
                assert(<(T12,) as Encode>::spec_encoding((self.12.model(),), s12));
                let s11 = vec@.skip(v11.len() as int);
                let k11 = v12.len() - v11.len();
                assert(s11.take(k11) =~= v12.skip(v11.len() as int));
                assert(s11.skip(k11) =~= vec@.skip(v12.len() as int));
                assert(T11::spec_encoding((self.11.model(), self.12.model()).0, s11.take(k11)));
                assert(<(T11, T12) as Encode>::spec_encoding((self.11.model(), self.12.model()), s11));
                let s10 = vec@.skip(v10.len() as int);
                let k10 = v11.len() - v10.len();
                assert(s10.take(k10) =~= v11.skip(v10.len() as int));
                assert(s10.skip(k10) =~= vec@.skip(v11.len() as int));
                assert(T10::spec_encoding((self.10.model(), self.11.model(), self.12.model()).0, s10.take(k10)));
                assert(<(T10, T11, T12) as Encode>::spec_encoding((self.10.model(), self.11.model(), self.12.model()), s10));
                let s9 = vec@.skip(v9.len() as int);
                let k9 = v10.len() - v9.len();
                assert(s9.take(k9) =~= v10.skip(v9.len() as int));
                assert(s9.skip(k9) =~= vec@.skip(v10.len() as int));
                assert(T9::spec_encoding((self.9.model(), self.10.model(), self.11.model(), self.12.model()).0, s9.take(k9)));
                assert(<(T9, T10, T11, T12) as Encode>::spec_encoding((self.9.model(), self.10.model(), self.11.model(), self.12.model()), s9));
                let s8 = vec@.skip(v8.len() as int);
                let k8 = v9.len() - v8.len();
                assert(s8.take(k8) =~= v9.skip(v8.len() as int));
                assert(s8.skip(k8) =~= vec@.skip(v9.len() as int));
                assert(T8::spec_encoding((self.8.model(), self.9.model(), self.10.model(), self.11.model(), self.12.model()).0, s8.take(k8)));
                assert(<(T8, T9, T10, T11, T12) as Encode>::spec_encoding((self.8.model(), self.9.model(), self.10.model(), self.11.model(), self.12.model()), s8));
                let s7 = vec@.skip(v7.len() as int);
                let k7 = v8.len() - v7.len();
                assert(s7.take(k7) =~= v8.skip(v7.len() as int));
                assert(s7.skip(k7) =~= vec@.skip(v8.len() as int));
                assert(T7::spec_encoding((self.7.model(), self.8.model(), self.9.model(), self.10.model(), self.11.model(), self.12.model()).0, s7.take(k7)));
                assert(<(T7, T8, T9, T10, T11, T12) as Encode>::spec_encoding((self.7.model(), self.8.model(), self.9.model(), self.10.model(), self.11.model(), self.12.model()), s7));
                let s6 = vec@.skip(v6.len() as int);
                let k6 = v7.len() - v6.len();
                assert(s6.take(k6) =~= v7.skip(v6.len() as int));
                assert(s6.skip(k6) =~= vec@.skip(v7.len() as int));
                assert(T6::spec_encoding((self.6.model(), self.7.model(), self.8.model(), self.9.model(), self.10.model(), self.11.model(), self.12.model()).0, s6.take(k6)));
                assert(<(T6, T7, T8, T9, T10, T11, T12) as Encode>::spec_encoding((self.6.model(), self.7.model(), self.8.model(), self.9.model(), self.10.model(), self.11.model(), self.12.model()), s6));
                let s5 = vec@.skip(v5.len() as int);
                let k5 = v6.len() - v5.len();
                assert(s5.take(k5) =~= v6.skip(v5.len() as int));
                assert(s5.skip(k5) =~= vec@.skip(v6.len() as int));
                assert(T5::spec_encoding((self.5.model(), self.6.model(), self.7.model(), self.8.model(), self.9.model(), self.10.model(), self.11.model(), self.12.model()).0, s5.take(k5)));
                assert(<(T5, T6, T7, T8, T9, T10, T11, T12) as Encode>::spec_encoding((self.5.model(), self.6.model(), self.7.model(), self.8.model(), self.9.model(), self.10.model(), self.11.model(), self.12.model()), s5));
                let s4 = vec@.skip(v4.len() as int);
                let k4 = v5.len() - v4.len();
                assert(s4.take(k4) =~= v5.skip(v4.len() as int));
                assert(s4.skip(k4) =~= vec@.skip(v5.len() as int));
                assert(T4::spec_encoding((self.4.model(), self.5.model(), self.6.model(), self.7.model(), self.8.model(), self.9.model(), self.10.model(), self.11.model(), self.12.model()).0, s4.take(k4)));
                assert(<(T4, T5, T6, T7, T8, T9, T10, T11, T12) as Encode>::spec_encoding((self.4.model(), self.5.model(), self.6.model(), self.7.model(), self.8.model(), self.9.model(), self.10.model(), self.11.model(), self.12.model()), s4));
                let s3 = vec@.skip(v3.len() as int);
                let k3 = v4.len() - v3.len();
                assert(s3.take(k3) =~= v4.skip(v3.len() as int));
                assert(s3.skip(k3) =~= vec@.skip(v4.len() as int));
                assert(T3::spec_encoding((self.3.model(), self.4.model(), self.5.model(), self.6.model(), self.7.model(), self.8.model(), self.9.model(), self.10.model(), self.11.model(), self.12.model()).0, s3.take(k3)));
                assert(<(T3, T4, T5, T6, T7, T8, T9, T10, T11, T12) as Encode>::spec_encoding((self.3.model(), self.4.model(), self.5.model(), self.6.model(), self.7.model(), self.8.model(), self.9.model(), self.10.model(), self.11.model(), self.12.model()), s3));
                let s2 = vec@.skip(v2.len() as int);
                let k2 = v3.len() - v2.len();
                assert(s2.take(k2) =~= v3.skip(v2.len() as int));
                assert(s2.skip(k2) =~= vec@.skip(v3.len() as int));
                assert(T2::spec_encoding((self.2.model(), self.3.model(), self.4.model(), self.5.model(), self.6.model(), self.7.model(), self.8.model(), self.9.model(), self.10.model(), self.11.model(), self.12.model()).0, s2.take(k2)));
                assert(<(T2, T3, T4, T5, T6, T7, T8, T9, T10, T11, T12) as Encode>::spec_encoding((self.2.model(), self.3.model(), self.4.model(), self.5.model(), self.6.model(), self.7.model(), self.8.model(), self.9.model(), self.10.model(), self.11.model(), self.12.model()), s2));
                let s1 = vec@.skip(v1.len() as int);
                let k1 = v2.len() - v1.len();
                assert(s1.take(k1) =~= v2.skip(v1.len() as int));
                assert(s1.skip(k1) =~= vec@.skip(v2.len() as int));
                assert(T1::spec_encoding((self.1.model(), self.2.model(), self.3.model(), self.4.model(), self.5.model(), self.6.model(), self.7.model(), self.8.model(), self.9.model(), self.10.model(), self.11.model(), self.12.model()).0, s1.take(k1)));
                assert(<(T1, T2, T3, T4, T5, T6, T7, T8, T9, T10, T11, T12) as Encode>::spec_encoding((self.1.model(), self.2.model(), self.3.model(), self.4.model(), self.5.model(), self.6.model(), self.7.model(), self.8.model(), self.9.model(), self.10.model(), self.11.model(), self.12.model()), s1));
                let s0 = vec@.skip(v0.len() as int);
                let k0 = v1.len() - v0.len();
                assert(s0.take(k0) =~= v1.skip(v0.len() as int));
                assert(s0.skip(k0) =~= vec@.skip(v1.len() as int));
                assert(T0::spec_encoding((self.0.model(), self.1.model(), self.2.model(), self.3.model(), self.4.model(), self.5.model(), self.6.model(), self.7.model(), self.8.model(), self.9.model(), self.10.model(), self.11.model(), self.12.model()).0, s0.take(k0)));
                assert(<(T0, T1, T2, T3, T4, T5, T6, T7, T8, T9, T10, T11, T12) as Encode>::spec_encoding((self.0.model(), self.1.model(), self.2.model(), self.3.model(), self.4.model(), self.5.model(), self.6.model(), self.7.model(), self.8.model(), self.9.model(), self.10.model(), self.11.model(), self.12.model()), s0));
            }
        }
    }
}

impl<T0: Encode, T1: Encode, T2: Encode, T3: Encode, T4: Encode, T5: Encode, T6: Encode, T7: Encode, T8: Encode, T9: Encode, T10: Encode, T11: Encode, T12: Encode, T13: Encode> Encode for (T0, T1, T2, T3, T4, T5, T6, T7, T8, T9, T10, T11, T12, T13) {
    /// An encoding of the first item, then one of the tuple of the others.
    open spec fn spec_encoding(m: Self::M, bytes: Seq<u8>) -> bool {
        exists|k: int|
            0 <= k <= bytes.len() && #[trigger] T0::spec_encoding(m.0, bytes.take(k))
                && <(T1, T2, T3, T4, T5, T6, T7, T8, T9, T10, T11, T12, T13) as Encode>::spec_encoding((m.1, m.2, m.3, m.4, m.5, m.6, m.7, m.8, m.9, m.10, m.11, m.12, m.13), bytes.skip(k))
    }

    #[verifier::rlimit(40)]
    fn encode_internal(&self, vec: &mut Vec<u8>) {
        let ghost v0 = vec@;
        self.0.encode_internal(vec);
        let ghost v1 = vec@;
        self.1.encode_internal(vec);
        let ghost v2 = vec@;
        self.2.encode_internal(vec);
        let ghost v3 = vec@;
        self.3.encode_internal(vec);
        let ghost v4 = vec@;
        self.4.encode_internal(vec);
        let ghost v5 = vec@;
        self.5.encode_internal(vec);
        let ghost v6 = vec@;
        self.6.encode_internal(vec);
        let ghost v7 = vec@;
        self.7.encode_internal(vec);
        let ghost v8 = vec@;
        self.8.encode_internal(vec);
        let ghost v9 = vec@;
        self.9.encode_internal(vec);
        let ghost v10 = vec@;
        self.10.encode_internal(vec);
        let ghost v11 = vec@;
        self.11.encode_internal(vec);
        let ghost v12 = vec@;
        self.12.encode_internal(vec);
        let ghost v13 = vec@;
        self.13.encode_internal(vec);
        proof {
            lemma_prefix_split(v0, v1);
            lemma_prefix_split(v1, v2);
            lemma_prefix_split(v2, v3);
            lemma_prefix_split(v3, v4);
            lemma_prefix_split(v4, v5);
            lemma_prefix_split(v5, v6);
            lemma_prefix_split(v6, v7);
            lemma_prefix_split(v7, v8);
            lemma_prefix_split(v8, v9);
            lemma_prefix_split(v9, v10);
            lemma_prefix_split(v10, v11);
            lemma_prefix_split(v11, v12);
            lemma_prefix_split(v12, v13);
            lemma_prefix_split(v13, vec@);
            if Self::well_behaved() {
                assert(vec@.skip(vec@.len() as int) =~= Seq::<u8>::empty());
                let s13 = vec@.skip(v13.len() as int);
                let k13 = vec@.len() - v13.len();
                assert(s13.take(k13) =~= vec@.skip(v13.len() as int));
                assert(s13.skip(k13) =~= vec@.skip(vec@.len() as int));
                assert(T13::spec_encoding((self.13.model(),).0, s13.take(k13)));
                assert(<(T13,) as Encode>::spec_encoding((self.13.model(),), s13));
                let s12 = vec@.skip(v12.len() as int);
                let k12 = v13.len() - v12.len();
                assert(s12.take(k12) =~= v13.skip(v12.len() as int));
                assert(s12.skip(k12) =~= vec@.skip(v13.len() as int));
                assert(T12::spec_encoding((self.12.model(), self.13.model()).0, s12.take(k12)));
                assert(<(T12, T13) as Encode>::spec_encoding((self.12.model(), self.13.model()), s12));
                let s11 = vec@.skip(v11.len() as int);
                let k11 = v12.len() - v11.len();
                assert(s11.take(k11) =~= v12.skip(v11.len() as int));
                assert(s11.skip(k11) =~= vec@.skip(v12.len() as int));
                assert(T11::spec_encoding((self.11.model(), self.12.model(), self.13.model()).0, s11.take(k11)));
                assert(<(T11, T12, T13) as Encode>::spec_encoding((self.11.model(), self.12.model(), self.13.model()), s11));
                let s10 = vec@.skip(v10.len() as int);
                let k10 = v11.len() - v10.len();
                assert(s10.take(k10) =~= v11.skip(v10.len() as int));
                assert(s10.skip(k10) =~= vec@.skip(v11.len() as int));
                assert(T10::spec_encoding((self.10.model(), self.11.model(), self.12.model(), self.13.model()).0, s10.take(k10)));
                assert(<(T10, T11, T12, T13) as Encode>::spec_encoding((self.10.model(), self.11.model(), self.12.model(), self.13.model()), s10));
                let s9 = vec@.skip(v9.len() as int);
                let k9 = v10.len() - v9.len();
                assert(s9.take(k9) =~= v10.skip(v9.len() as int));
                assert(s9.skip(k9) =~= vec@.skip(v10.len() as int));
                assert(T9::spec_encoding((self.9.model(), self.10.model(), self.11.model(), self.12.model(), self.13.model()).0, s9.take(k9)));
                assert(<(T9, T10, T11, T12, T13) as Encode>::spec_encoding((self.9.model(), self.10.model(), self.11.model(), self.12.model(), self.13.model()), s9));
                let s8 = vec@.skip(v8.len() as int);
                let k8 = v9.len() - v8.len();
                assert(s8.take(k8) =~= v9.skip(v8.len() as int));
                assert(s8.skip(k8) =~= vec@.skip(v9.len() as int));
                assert(T8::spec_encoding((self.8.model(), self.9.model(), self.10.model(), self.11.model(), self.12.model(), self.13.model()).0, s8.take(k8)));
                assert(<(T8, T9, T10, T11, T12, T13) as Encode>::spec_encoding((self.8.model(), self.9.model(), self.10.model(), self.11.model(), self.12.model(), self.13.model()), s8));
                let s7 = vec@.skip(v7.len() as int);
                let k7 = v8.len() - v7.len();
                assert(s7.take(k7) =~= v8.skip(v7.len() as int));
                assert(s7.skip(k7) =~= vec@.skip(v8.len() as int));
                assert(T7::spec_encoding((self.7.model(), self.8.model(), self.9.model(), self.10.model(), self.11.model(), self.12.model(), self.13.model()).0, s7.take(k7)));
                assert(<(T7, T8, T9, T10, T11, T12, T13) as Encode>::spec_encoding((self.7.model(), self.8.model(), self.9.model(), self.10.model(), self.11.model(), self.12.model(), self.13.model()), s7));
                let s6 = vec@.skip(v6.len() as int);
                let k6 = v7.len() - v6.len();
                assert(s6.take(k6) =~= v7.skip(v6.len() as int));
                assert(s6.skip(k6) =~= vec@.skip(v7.len() as int));
                assert(T6::spec_encoding((self.6.model(), self.7.model(), self.8.model(), self.9.model(), self.10.model(), self.11.model(), self.12.model(), self.13.model()).0, s6.take(k6)));
                assert(<(T6, T7, T8, T9, T10, T11, T12, T13) as Encode>::spec_encoding((self.6.model(), self.7.model(), self.8.model(), self.9.model(), self.10.model(), self.11.model(), self.12.model(), self.13.model()), s6));
                let s5 = vec@.skip(v5.len() as int);
                let k5 = v6.len() - v5.len();
                assert(s5.take(k5) =~= v6.skip(v5.len() as int));
                assert(s5.skip(k5) =~= vec@.skip(v6.len() as int));
                assert(T5::spec_encoding((self.5.model(), self.6.model(), self.7.model(), self.8.model(), self.9.model(), self.10.model(), self.11.model(), self.12.model(), self.13.model()).0, s5.take(k5)));
                assert(<(T5, T6, T7, T8, T9, T10, T11, T12, T13) as Encode>::spec_encoding((self.5.model(), self.6.model(), self.7.model(), self.8.model(), self.9.model(), self.10.model(), self.11.model(), self.12.model(), self.13.model()), s5));
                let s4 = vec@.skip(v4.len() as int);
                let k4 = v5.len() - v4.len();
                assert(s4.take(k4) =~= v5.skip(v4.len() as int));
                assert(s4.skip(k4) =~= vec@.skip(v5.len() as int));
                assert(T4::spec_encoding((self.4.model(), self.5.model(), self.6.model(), self.7.model(), self.8.model(), self.9.model(), self.10.model(), self.11.model(), self.12.model(), self.13.model()).0, s4.take(k4)));
                assert(<(T4, T5, T6, T7, T8, T9, T10, T11, T12, T13) as Encode>::spec_encoding((self.4.model(), self.5.model(), self.6.model(), self.7.model(), self.8.model(), self.9.model(), self.10.model(), self.11.model(), self.12.model(), self.13.model()), s4));
                let s3 = vec@.skip(v3.len() as int);
                let k3 = v4.len() - v3.len();
                assert(s3.take(k3) =~= v4.skip(v3.len() as int));
                assert(s3.skip(k3) =~= vec@.skip(v4.len() as int));
                assert(T3::spec_encoding((self.3.model(), self.4.model(), self.5.model(), self.6.model(), self.7.model(), self.8.model(), self.9.model(), self.10.model(), self.11.model(), self.12.model(), self.13.model()).0, s3.take(k3)));
                assert(<(T3, T4, T5, T6, T7, T8, T9, T10, T11, T12, T13) as Encode>::spec_encoding((self.3.model(), self.4.model(), self.5.model(), self.6.model(), self.7.model(), self.8.model(), self.9.model(), self.10.model(), self.11.model(), self.12.model(), self.13.model()), s3));
                let s2 = vec@.skip(v2.len() as int);
                let k2 = v3.len() - v2.len();
                assert(s2.take(k2) =~= v3.skip(v2.len() as int));
                assert(s2.skip(k2) =~= vec@.skip(v3.len() as int));
                assert(T2::spec_encoding((self.2.model(), self.3.model(), self.4.model(), self.5.model(), self.6.model(), self.7.model(), self.8.model(), self.9.model(), self.10.model(), self.11.model(), self.12.model(), self.13.model()).0, s2.take(k2)));
                assert(<(T2, T3, T4, T5, T6, T7, T8, T9, T10, T11, T12, T13) as Encode>::spec_encoding((self.2.model(), self.3.model(), self.4.model(), self.5.model(), self.6.model(), self.7.model(), self.8.model(), self.9.model(), self.10.model(), self.11.model(), self.12.model(), self.13.model()), s2));
                let s1 = vec@.skip(v1.len() as int);
                let k1 = v2.len() - v1.len();
                assert(s1.take(k1) =~= v2.skip(v1.len() as int));
                assert(s1.skip(k1) =~= vec@.skip(v2.len() as int));
                assert(T1::spec_encoding((self.1.model(), self.2.model(), self.3.model(), self.4.model(), self.5.model(), self.6.model(), self.7.model(), self.8.model(), self.9.model(), self.10.model(), self.11.model(), self.12.model(), self.13.model()).0, s1.take(k1)));
                assert(<(T1, T2, T3, T4, T5, T6, T7, T8, T9, T10, T11, T12, T13) as Encode>::spec_encoding((self.1.model(), self.2.model(), self.3.model(), self.4.model(), self.5.model(), self.6.model(), self.7.model(), self.8.model(), self.9.model(), self.10.model(), self.11.model(), self.12.model(), self.13.model()), s1));
                let s0 = vec@.skip(v0.len() as int);
                let k0 = v1.len() - v0.len();
                assert(s0.take(k0) =~= v1.skip(v0.len() as int));
                assert(s0.skip(k0) =~= vec@.skip(v1.len() as int));
                assert(T0::spec_encoding((self.0.model(), self.1.model(), self.2.model(), self.3.model(), self.4.model(), self.5.model(), self.6.model(), self.7.model(), self.8.model(), self.9.model(), self.10.model(), self.11.model(), self.12.model(), self.13.model()).0, s0.take(k0)));
                assert(<(T0, T1, T2, T3, T4, T5, T6, T7, T8, T9, T10, T11, T12, T13) as Encode>::spec_encoding((self.0.model(), self.1.model(), self.2.model(), self.3.model(), self.4.model(), self.5.model(), self.6.model(), self.7.model(), self.8.model(), self.9.model(), self.10.model(), self.11.model(), self.12.model(), self.13.model()), s0));
            }
        }
    }
}

impl<T0: Encode, T1: Encode, T2: Encode, T3: Encode, T4: Encode, T5: Encode, T6: Encode, T7: Encode, T8: Encode, T9: Encode, T10: Encode, T11: Encode, T12: Encode, T13: Encode, T14: Encode> Encode for (T0, T1, T2, T3, T4, T5, T6, T7, T8, T9, T10, T11, T12, T13, T14) {
    /// An encoding of the first item, then one of the tuple of the others.
    open spec fn spec_encoding(m: Self::M, bytes: Seq<u8>) -> bool {
        exists|k: int|
            0 <= k <= bytes.len() && #[trigger] T0::spec_encoding(m.0, bytes.take(k))
                && <(T1, T2, T3, T4, T5, T6, T7, T8, T9, T10, T11, T12, T13, T14) as Encode>::spec_encoding((m.1, m.2, m.3, m.4, m.5, m.6, m.7, m.8, m.9, m.10, m.11, m.12, m.13, m.14), bytes.skip(k))
    }

    #[verifier::rlimit(40)]
    fn encode_internal(&self, vec: &mut Vec<u8>) {
        let ghost v0 = vec@;
        self.0.encode_internal(vec);
        let ghost v1 = vec@;
        self.1.encode_internal(vec);
        let ghost v2 = vec@;
        self.2.encode_internal(vec);
        let ghost v3 = vec@;
        self.3.encode_internal(vec);
        let ghost v4 = vec@;
        self.4.encode_internal(vec);
        let ghost v5 = vec@;
        self.5.encode_internal(vec);
        let ghost v6 = vec@;
        self.6.encode_internal(vec);
        let ghost v7 = vec@;
        self.7.encode_internal(vec);
        let ghost v8 = vec@;
        self.8.encode_internal(vec);
        let ghost v9 = vec@;
        self.9.encode_internal(vec);
        let ghost v10 = vec@;
        self.10.encode_internal(vec);
        let ghost v11 = vec@;
        self.11.encode_internal(vec);
        let ghost v12 = vec@;
        self.12.encode_internal(vec);
        let ghost v13 = vec@;
        self.13.encode_internal(vec);
        let ghost v14 = vec@;
        self.14.encode_internal(vec);
        proof {
            lemma_prefix_split(v0, v1);
            lemma_prefix_split(v1, v2);
            lemma_prefix_split(v2, v3);
            lemma_prefix_split(v3, v4);
            lemma_prefix_split(v4, v5);
            lemma_prefix_split(v5, v6);
            lemma_prefix_split(v6, v7);
            lemma_prefix_split(v7, v8);
            lemma_prefix_split(v8, v9);
            lemma_prefix_split(v9, v10);
            lemma_prefix_split(v10, v11);
            lemma_prefix_split(v11, v12);
            lemma_prefix_split(v12, v13);
            lemma_prefix_split(v13, v14);
            lemma_prefix_split(v14, vec@);
            if Self::well_behaved() {
                assert(vec@.skip(vec@.len() as int) =~= Seq::<u8>::empty());
                let s14 = vec@.skip(v14.len() as int);
                let k14 = vec@.len() - v14.len();
                assert(s14.take(k14) =~= vec@.skip(v14.len() as int));
                assert(s14.skip(k14) =~= vec@.skip(vec@.len() as int));
                assert(T14::spec_encoding((self.14.model(),).0, s14.take(k14)));
                assert(<(T14,) as Encode>::spec_encoding((self.14.model(),), s14));
                let s13 = vec@.skip(v13.len() as int);
                let k13 = v14.len() - v13.len();
                assert(s13.take(k13) =~= v14.skip(v13.len() as int));
                assert(s13.skip(k13) =~= vec@.skip(v14.len() as int));
                assert(T13::spec_encoding((self.13.model(), self.14.model()).0, s13.take(k13)));
                assert(<(T13, T14) as Encode>::spec_encoding((self.13.model(), self.14.model()), s13));
                let s12 = vec@.skip(v12.len() as int);
                let k12 = v13.len() - v12.len();
                assert(s12.take(k12) =~= v13.skip(v12.len() as int));
                assert(s12.skip(k12) =~= vec@.skip(v13.len() as int));
                assert(T12::spec_encoding((self.12.model(), self.13.model(), self.14.model()).0, s12.take(k12)));
                assert(<(T12, T13, T14) as Encode>::spec_encoding((self.12.model(), self.13.model(), self.14.model()), s12));
                let s11 = vec@.skip(v11.len() as int);
                let k11 = v12.len() - v11.len();
                assert(s11.take(k11) =~= v12.skip(v11.len() as int));
                assert(s11.skip(k11) =~= vec@.skip(v12.len() as int));
                assert(T11::spec_encoding((self.11.model(), self.12.model(), self.13.model(), self.14.model()).0, s11.take(k11)));
                assert(<(T11, T12, T13, T14) as Encode>::spec_encoding((self.11.model(), self.12.model(), self.13.model(), self.14.model()), s11));
                let s10 = vec@.skip(v10.len() as int);
                let k10 = v11.len() - v10.len();
                assert(s10.take(k10) =~= v11.skip(v10.len() as int));
                assert(s10.skip(k10) =~= vec@.skip(v11.len() as int));
                assert(T10::spec_encoding((self.10.model(), self.11.model(), self.12.model(), self.13.model(), self.14.model()).0, s10.take(k10)));
                assert(<(T10, T11, T12, T13, T14) as Encode>::spec_encoding((self.10.model(), self.11.model(), self.12.model(), self.13.model(), self.14.model()), s10));
                let s9 = vec@.skip(v9.len() as int);
                let k9 = v10.len() - v9.len();
                assert(s9.take(k9) =~= v10.skip(v9.len() as int));
                assert(s9.skip(k9) =~= vec@.skip(v10.len() as int));
                assert(T9::spec_encoding((self.9.model(), self.10.model(), self.11.model(), self.12.model(), self.13.model(), self.14.model()).0, s9.take(k9)));
                assert(<(T9, T10, T11, T12, T13, T14) as Encode>::spec_encoding((self.9.model(), self.10.model(), self.11.model(), self.12.model(), self.13.model(), self.14.model()), s9));
                let s8 = vec@.skip(v8.len() as int);
                let k8 = v9.len() - v8.len();
                assert(s8.take(k8) =~= v9.skip(v8.len() as int));
                assert(s8.skip(k8) =~= vec@.skip(v9.len() as int));
                assert(T8::spec_encoding((self.8.model(), self.9.model(), self.10.model(), self.11.model(), self.12.model(), self.13.model(), self.14.model()).0, s8.take(k8)));
                assert(<(T8, T9, T10, T11, T12, T13, T14) as Encode>::spec_encoding((self.8.model(), self.9.model(), self.10.model(), self.11.model(), self.12.model(), self.13.model(), self.14.model()), s8));
                let s7 = vec@.skip(v7.len() as int);
                let k7 = v8.len() - v7.len();
                assert(s7.take(k7) =~= v8.skip(v7.len() as int));
                assert(s7.skip(k7) =~= vec@.skip(v8.len() as int));
                assert(T7::spec_encoding((self.7.model(), self.8.model(), self.9.model(), self.10.model(), self.11.model(), self.12.model(), self.13.model(), self.14.model()).0, s7.take(k7)));
                assert(<(T7, T8, T9, T10, T11, T12, T13, T14) as Encode>::spec_encoding((self.7.model(), self.8.model(), self.9.model(), self.10.model(), self.11.model(), self.12.model(), self.13.model(), self.14.model()), s7));
                let s6 = vec@.skip(v6.len() as int);
                let k6 = v7.len() - v6.len();
                assert(s6.take(k6) =~= v7.skip(v6.len() as int));
                assert(s6.skip(k6) =~= vec@.skip(v7.len() as int));
                assert(T6::spec_encoding((self.6.model(), self.7.model(), self.8.model(), self.9.model(), self.10.model(), self.11.model(), self.12.model(), self.13.model(), self.14.model()).0, s6.take(k6)));
                assert(<(T6, T7, T8, T9, T10, T11, T12, T13, T14) as Encode>::spec_encoding((self.6.model(), self.7.model(), self.8.model(), self.9.model(), self.10.model(), self.11.model(), self.12.model(), self.13.model(), self.14.model()), s6));
                let s5 = vec@.skip(v5.len() as int);
                let k5 = v6.len() - v5.len();
                assert(s5.take(k5) =~= v6.skip(v5.len() as int));
                assert(s5.skip(k5) =~= vec@.skip(v6.len() as int));
                assert(T5::spec_encoding((self.5.model(), self.6.model(), self.7.model(), self.8.model(), self.9.model(), self.10.model(), self.11.model(), self.12.model(), self.13.model(), self.14.model()).0, s5.take(k5)));
                assert(<(T5, T6, T7, T8, T9, T10, T11, T12, T13, T14) as Encode>::spec_encoding((self.5.model(), self.6.model(), self.7.model(), self.8.model(), self.9.model(), self.10.model(), self.11.model(), self.12.model(), self.13.model(), self.14.model()), s5));
                let s4 = vec@.skip(v4.len() as int);
                let k4 = v5.len() - v4.len();
                assert(s4.take(k4) =~= v5.skip(v4.len() as int));
                assert(s4.skip(k4) =~= vec@.skip(v5.len() as int));
                assert(T4::spec_encoding((self.4.model(), self.5.model(), self.6.model(), self.7.model(), self.8.model(), self.9.model(), self.10.model(), self.11.model(), self.12.model(), self.13.model(), self.14.model()).0, s4.take(k4)));
                assert(<(T4, T5, T6, T7, T8, T9, T10, T11, T12, T13, T14) as Encode>::spec_encoding((self.4.model(), self.5.model(), self.6.model(), self.7.model(), self.8.model(), self.9.model(), self.10.model(), self.11.model(), self.12.model(), self.13.model(), self.14.model()), s4));
                let s3 = vec@.skip(v3.len() as int);
                let k3 = v4.len() - v3.len();
                assert(s3.take(k3) =~= v4.skip(v3.len() as int));
                assert(s3.skip(k3) =~= vec@.skip(v4.len() as int));
                assert(T3::spec_encoding((self.3.model(), self.4.model(), self.5.model(), self.6.model(), self.7.model(), self.8.model(), self.9.model(), self.10.model(), self.11.model(), self.12.model(), self.13.model(), self.14.model()).0, s3.take(k3)));
                assert(<(T3, T4, T5, T6, T7, T8, T9, T10, T11, T12, T13, T14) as Encode>::spec_encoding((self.3.model(), self.4.model(), self.5.model(), self.6.model(), self.7.model(), self.8.model(), self.9.model(), self.10.model(), self.11.model(), self.12.model(), self.13.model(), self.14.model()), s3));
                let s2 = vec@.skip(v2.len() as int);
                let k2 = v3.len() - v2.len();
                assert(s2.take(k2) =~= v3.skip(v2.len() as int));
                assert(s2.skip(k2) =~= vec@.skip(v3.len() as int));
                assert(T2::spec_encoding((self.2.model(), self.3.model(), self.4.model(), self.5.model(), self.6.model(), self.7.model(), self.8.model(), self.9.model(), self.10.model(), self.11.model(), self.12.model(), self.13.model(), self.14.model()).0, s2.take(k2)));
                assert(<(T2, T3, T4, T5, T6, T7, T8, T9, T10, T11, T12, T13, T14) as Encode>::spec_encoding((self.2.model(), self.3.model(), self.4.model(), self.5.model(), self.6.model(), self.7.model(), self.8.model(), self.9.model(), self.10.model(), self.11.model(), self.12.model(), self.13.model(), self.14.model()), s2));
                let s1 = vec@.skip(v1.len() as int);
                let k1 = v2.len() - v1.len();
                assert(s1.take(k1) =~= v2.skip(v1.len() as int));
                assert(s1.skip(k1) =~= vec@.skip(v2.len() as int));
                assert(T1::spec_encoding((self.1.model(), self.2.model(), self.3.model(), self.4.model(), self.5.model(), self.6.model(), self.7.model(), self.8.model(), self.9.model(), self.10.model(), self.11.model(), self.12.model(), self.13.model(), self.14.model()).0, s1.take(k1)));
                assert(<(T1, T2, T3, T4, T5, T6, T7, T8, T9, T10, T11, T12, T13, T14) as Encode>::spec_encoding((self.1.model(), self.2.model(), self.3.model(), self.4.model(), self.5.model(), self.6.model(), self.7.model(), self.8.model(), self.9.model(), self.10.model(), self.11.model(), self.12.model(), self.13.model(), self.14.model()), s1));
                let s0 = vec@.skip(v0.len() as int);
                let k0 = v1.len() - v0.len();
                assert(s0.take(k0) =~= v1.skip(v0.len() as int));
                assert(s0.skip(k0) =~= vec@.skip(v1.len() as int));
                assert(T0::spec_encoding((self.0.model(), self.1.model(), self.2.model(), self.3.model(), self.4.model(), self.5.model(), self.6.model(), self.7.model(), self.8.model(), self.9.model(), self.10.model(), self.11.model(), self.12.model(), self.13.model(), self.14.model()).0, s0.take(k0)));
                assert(<(T0, T1, T2, T3, T4, T5, T6, T7, T8, T9, T10, T11, T12, T13, T14) as Encode>::spec_encoding((self.0.model(), self.1.model(), self.2.model(), self.3.model(), self.4.model(), self.5.model(), self.6.model(), self.7.model(), self.8.model(), self.9.model(), self.10.model(), self.11.model(), self.12.model(), self.13.model(), self.14.model()), s0));
            }
        }
    }
}

impl<T0: Encode, T1: Encode, T2: Encode, T3: Encode, T4: Encode, T5: Encode, T6: Encode, T7: Encode, T8: Encode, T9: Encode, T10: Encode, T11: Encode, T12: Encode, T13: Encode, T14: Encode, T15: Encode> Encode for (T0, T1, T2, T3, T4, T5, T6, T7, T8, T9, T10, T11, T12, T13, T14, T15) {
    /// An encoding of the first item, then one of the tuple of the others.
    open spec fn spec_encoding(m: Self::M, bytes: Seq<u8>) -> bool {
        exists|k: int|
            0 <= k <= bytes.len() && #[trigger] T0::spec_encoding(m.0, bytes.take(k))
                && <(T1, T2, T3, T4, T5, T6, T7, T8, T9, T10, T11, T12, T13, T14, T15) as Encode>::spec_encoding((m.1, m.2, m.3, m.4, m.5, m.6, m.7, m.8, m.9, m.10, m.11, m.12, m.13, m.14, m.15), bytes.skip(k))
    }

    #[verifier::rlimit(40)]
    fn encode_internal(&self, vec: &mut Vec<u8>) {
        let ghost v0 = vec@;
        self.0.encode_internal(vec);
        let ghost v1 = vec@;
        self.1.encode_internal(vec);
        let ghost v2 = vec@;
        self.2.encode_internal(vec);
        let ghost v3 = vec@;
        self.3.encode_internal(vec);
        let ghost v4 = vec@;
        self.4.encode_internal(vec);
        let ghost v5 = vec@;
        self.5.encode_internal(vec);
        let ghost v6 = vec@;
        self.6.encode_internal(vec);
        let ghost v7 = vec@;
        self.7.encode_internal(vec);
        let ghost v8 = vec@;
        self.8.encode_internal(vec);
        let ghost v9 = vec@;
        self.9.encode_internal(vec);
        let ghost v10 = vec@;
        self.10.encode_internal(vec);
        let ghost v11 = vec@;
        self.11.encode_internal(vec);
        let ghost v12 = vec@;
        self.12.encode_internal(vec);
        let ghost v13 = vec@;
        self.13.encode_internal(vec);
        let ghost v14 = vec@;
        self.14.encode_internal(vec);
        let ghost v15 = vec@;
        self.15.encode_internal(vec);
        proof {
            lemma_prefix_split(v0, v1);
            lemma_prefix_split(v1, v2);
            lemma_prefix_split(v2, v3);
            lemma_prefix_split(v3, v4);
            lemma_prefix_split(v4, v5);
            lemma_prefix_split(v5, v6);
            lemma_prefix_split(v6, v7);
            lemma_prefix_split(v7, v8);
            lemma_prefix_split(v8, v9);
            lemma_prefix_split(v9, v10);
            lemma_prefix_split(v10, v11);
            lemma_prefix_split(v11, v12);
            lemma_prefix_split(v12, v13);
            lemma_prefix_split(v13, v14);
            lemma_prefix_split(v14, v15);
            lemma_prefix_split(v15, vec@);
            if Self::well_behaved() {
                assert(vec@.skip(vec@.len() as int) =~= Seq::<u8>::empty());
                let s15 = vec@.skip(v15.len() as int);
                let k15 = vec@.len() - v15.len();
                assert(s15.take(k15) =~= vec@.skip(v15.len() as int));
                assert(s15.skip(k15) =~= vec@.skip(vec@.len() as int));
                assert(T15::spec_encoding((self.15.model(),).0, s15.take(k15)));
                assert(<(T15,) as Encode>::spec_encoding((self.15.model(),), s15));
                let s14 = vec@.skip(v14.len() as int);
                let k14 = v15.len() - v14.len();
                assert(s14.take(k14) =~= v15.skip(v14.len() as int));
                assert(s14.skip(k14) =~= vec@.skip(v15.len() as int));
                assert(T14::spec_encoding((self.14.model(), self.15.model()).0, s14.take(k14)));
                assert(<(T14, T15) as Encode>::spec_encoding((self.14.model(), self.15.model()), s14));
                let s13 = vec@.skip(v13.len() as int);
                let k13 = v14.len() - v13.len();
                assert(s13.take(k13) =~= v14.skip(v13.len() as int));
                assert(s13.skip(k13) =~= vec@.skip(v14.len() as int));
                assert(T13::spec_encoding((self.13.model(), self.14.model(), self.15.model()).0, s13.take(k13)));
                assert(<(T13, T14, T15) as Encode>::spec_encoding((self.13.model(), self.14.model(), self.15.model()), s13));
                let s12 = vec@.skip(v12.len() as int);
                let k12 = v13.len() - v12.len();
                assert(s12.take(k12) =~= v13.skip(v12.len() as int));
                assert(s12.skip(k12) =~= vec@.skip(v13.len() as int));
                assert(T12::spec_encoding((self.12.model(), self.13.model(), self.14.model(), self.15.model()).0, s12.take(k12)));
                assert(<(T12, T13, T14, T15) as Encode>::spec_encoding((self.12.model(), self.13.model(), self.14.model(), self.15.model()), s12));
                let s11 = vec@.skip(v11.len() as int);
                let k11 = v12.len() - v11.len();
                assert(s11.take(k11) =~= v12.skip(v11.len() as int));
                assert(s11.skip(k11) =~= vec@.skip(v12.len() as int));
                assert(T11::spec_encoding((self.11.model(), self.12.model(), self.13.model(), self.14.model(), self.15.model()).0, s11.take(k11)));
                assert(<(T11, T12, T13, T14, T15) as Encode>::spec_encoding((self.11.model(), self.12.model(), self.13.model(), self.14.model(), self.15.model()), s11));
                let s10 = vec@.skip(v10.len() as int);
                let k10 = v11.len() - v10.len();
                assert(s10.take(k10) =~= v11.skip(v10.len() as int));
                assert(s10.skip(k10) =~= vec@.skip(v11.len() as int));
                assert(T10::spec_encoding((self.10.model(), self.11.model(), self.12.model(), self.13.model(), self.14.model(), self.15.model()).0, s10.take(k10)));
                assert(<(T10, T11, T12, T13, T14, T15) as Encode>::spec_encoding((self.10.model(), self.11.model(), self.12.model(), self.13.model(), self.14.model(), self.15.model()), s10));
                let s9 = vec@.skip(v9.len() as int);
                let k9 = v10.len() - v9.len();
                assert(s9.take(k9) =~= v10.skip(v9.len() as int));
                assert(s9.skip(k9) =~= vec@.skip(v10.len() as int));
                assert(T9::spec_encoding((self.9.model(), self.10.model(), self.11.model(), self.12.model(), self.13.model(), self.14.model(), self.15.model()).0, s9.take(k9)));
                assert(<(T9, T10, T11, T12, T13, T14, T15) as Encode>::spec_encoding((self.9.model(), self.10.model(), self.11.model(), self.12.model(), self.13.model(), self.14.model(), self.15.model()), s9));
                let s8 = vec@.skip(v8.len() as int);
                let k8 = v9.len() - v8.len();
                assert(s8.take(k8) =~= v9.skip(v8.len() as int));
                assert(s8.skip(k8) =~= vec@.skip(v9.len() as int));
                assert(T8::spec_encoding((self.8.model(), self.9.model(), self.10.model(), self.11.model(), self.12.model(), self.13.model(), self.14.model(), self.15.model()).0, s8.take(k8)));
                assert(<(T8, T9, T10, T11, T12, T13, T14, T15) as Encode>::spec_encoding((self.8.model(), self.9.model(), self.10.model(), self.11.model(), self.12.model(), self.13.model(), self.14.model(), self.15.model()), s8));
                let s7 = vec@.skip(v7.len() as int);
                let k7 = v8.len() - v7.len();
                assert(s7.take(k7) =~= v8.skip(v7.len() as int));
                assert(s7.skip(k7) =~= vec@.skip(v8.len() as int));
                assert(T7::spec_encoding((self.7.model(), self.8.model(), self.9.model(), self.10.model(), self.11.model(), self.12.model(), self.13.model(), self.14.model(), self.15.model()).0, s7.take(k7)));
                assert(<(T7, T8, T9, T10, T11, T12, T13, T14, T15) as Encode>::spec_encoding((self.7.model(), self.8.model(), self.9.model(), self.10.model(), self.11.model(), self.12.model(), self.13.model(), self.14.model(), self.15.model()), s7));
                let s6 = vec@.skip(v6.len() as int);
                let k6 = v7.len() - v6.len();
                assert(s6.take(k6) =~= v7.skip(v6.len() as int));
                assert(s6.skip(k6) =~= vec@.skip(v7.len() as int));
                assert(T6::spec_encoding((self.6.model(), self.7.model(), self.8.model(), self.9.model(), self.10.model(), self.11.model(), self.12.model(), self.13.model(), self.14.model(), self.15.model()).0, s6.take(k6)));
                assert(<(T6, T7, T8, T9, T10, T11, T12, T13, T14, T15) as Encode>::spec_encoding((self.6.model(), self.7.model(), self.8.model(), self.9.model(), self.10.model(), self.11.model(), self.12.model(), self.13.model(), self.14.model(), self.15.model()), s6));
                let s5 = vec@.skip(v5.len() as int);
                let k5 = v6.len() - v5.len();
                assert(s5.take(k5) =~= v6.skip(v5.len() as int));
                assert(s5.skip(k5) =~= vec@.skip(v6.len() as int));
                assert(T5::spec_encoding((self.5.model(), self.6.model(), self.7.model(), self.8.model(), self.9.model(), self.10.model(), self.11.model(), self.12.model(), self.13.model(), self.14.model(), self.15.model()).0, s5.take(k5)));
                assert(<(T5, T6, T7, T8, T9, T10, T11, T12, T13, T14, T15) as Encode>::spec_encoding((self.5.model(), self.6.model(), self.7.model(), self.8.model(), self.9.model(), self.10.model(), self.11.model(), self.12.model(), self.13.model(), self.14.model(), self.15.model()), s5));
                let s4 = vec@.skip(v4.len() as int);
                let k4 = v5.len() - v4.len();
                assert(s4.take(k4) =~= v5.skip(v4.len() as int));
                assert(s4.skip(k4) =~= vec@.skip(v5.len() as int));
                assert(T4::spec_encoding((self.4.model(), self.5.model(), self.6.model(), self.7.model(), self.8.model(), self.9.model(), self.10.model(), self.11.model(), self.12.model(), self.13.model(), self.14.model(), self.15.model()).0, s4.take(k4)));
                assert(<(T4, T5, T6, T7, T8, T9, T10, T11, T12, T13, T14, T15) as Encode>::spec_encoding((self.4.model(), self.5.model(), self.6.model(), self.7.model(), self.8.model(), self.9.model(), self.10.model(), self.11.model(), self.12.model(), self.13.model(), self.14.model(), self.15.model()), s4));
                let s3 = vec@.skip(v3.len() as int);
                let k3 = v4.len() - v3.len();
                assert(s3.take(k3) =~= v4.skip(v3.len() as int));
                assert(s3.skip(k3) =~= vec@.skip(v4.len() as int));
                assert(T3::spec_encoding((self.3.model(), self.4.model(), self.5.model(), self.6.model(), self.7.model(), self.8.model(), self.9.model(), self.10.model(), self.11.model(), self.12.model(), self.13.model(), self.14.model(), self.15.model()).0, s3.take(k3)));
                assert(<(T3, T4, T5, T6, T7, T8, T9, T10, T11, T12, T13, T14, T15) as Encode>::spec_encoding((self.3.model(), self.4.model(), self.5.model(), self.6.model(), self.7.model(), self.8.model(), self.9.model(), self.10.model(), self.11.model(), self.12.model(), self.13.model(), self.14.model(), self.15.model()), s3));
                let s2 = vec@.skip(v2.len() as int);
                let k2 = v3.len() - v2.len();
                assert(s2.take(k2) =~= v3.skip(v2.len() as int));
                assert(s2.skip(k2) =~= vec@.skip(v3.len() as int));
                assert(T2::spec_encoding((self.2.model(), self.3.model(), self.4.model(), self.5.model(), self.6.model(), self.7.model(), self.8.model(), self.9.model(), self.10.model(), self.11.model(), self.12.model(), self.13.model(), self.14.model(), self.15.model()).0, s2.take(k2)));
                assert(<(T2, T3, T4, T5, T6, T7, T8, T9, T10, T11, T12, T13, T14, T15) as Encode>::spec_encoding((self.2.model(), self.3.model(), self.4.model(), self.5.model(), self.6.model(), self.7.model(), self.8.model(), self.9.model(), self.10.model(), self.11.model(), self.12.model(), self.13.model(), self.14.model(), self.15.model()), s2));
                let s1 = vec@.skip(v1.len() as int);
                let k1 = v2.len() - v1.len();
                assert(s1.take(k1) =~= v2.skip(v1.len() as int));
                assert(s1.skip(k1) =~= vec@.skip(v2.len() as int));
                assert(T1::spec_encoding((self.1.model(), self.2.model(), self.3.model(), self.4.model(), self.5.model(), self.6.model(), self.7.model(), self.8.model(), self.9.model(), self.10.model(), self.11.model(), self.12.model(), self.13.model(), self.14.model(), self.15.model()).0, s1.take(k1)));
                assert(<(T1, T2, T3, T4, T5, T6, T7, T8, T9, T10, T11, T12, T13, T14, T15) as Encode>::spec_encoding((self.1.model(), self.2.model(), self.3.model(), self.4.model(), self.5.model(), self.6.model(), self.7.model(), self.8.model(), self.9.model(), self.10.model(), self.11.model(), self.12.model(), self.13.model(), self.14.model(), self.15.model()), s1));
                let s0 = vec@.skip(v0.len() as int);
                let k0 = v1.len() - v0.len();
                assert(s0.take(k0) =~= v1.skip(v0.len() as int));
                assert(s0.skip(k0) =~= vec@.skip(v1.len() as int));
                assert(T0::spec_encoding((self.0.model(), self.1.model(), self.2.model(), self.3.model(), self.4.model(), self.5.model(), self.6.model(), self.7.model(), self.8.model(), self.9.model(), self.10.model(), self.11.model(), self.12.model(), self.13.model(), self.14.model(), self.15.model()).0, s0.take(k0)));
                assert(<(T0, T1, T2, T3, T4, T5, T6, T7, T8, T9, T10, T11, T12, T13, T14, T15) as Encode>::spec_encoding((self.0.model(), self.1.model(), self.2.model(), self.3.model(), self.4.model(), self.5.model(), self.6.model(), self.7.model(), self.8.model(), self.9.model(), self.10.model(), self.11.model(), self.12.model(), self.13.model(), self.14.model(), self.15.model()), s0));
            }
        }
    }
}


} // verus!
