use std::collections::HashMap;
use std::marker::PhantomData;
use std::rc::Rc;

use endecode::{ByteIter, Decode, Encode};
use rand::{thread_rng, Rng};

fn bytes_of(v: Vec<u8>) -> ByteIter {
    ByteIter::new(v)
}

#[test]
fn test_ints() {
    let mut rng = thread_rng();
    for _ in 0..1024 {
        let v = rng.gen_range(u8::MIN..=u8::MAX);
        assert_eq!(u8::decode(&mut bytes_of(v.encode())), v);
    }
    for _ in 0..1024 {
        let v = rng.gen_range(u16::MIN..=u16::MAX);
        assert_eq!(u16::decode(&mut bytes_of(v.encode())), v);
    }
    for _ in 0..1024 {
        let v = rng.gen_range(u32::MIN..=u32::MAX);
        assert_eq!(u32::decode(&mut bytes_of(v.encode())), v);
    }
    for _ in 0..1024 {
        let v = rng.gen_range(u64::MIN..=u64::MAX);
        assert_eq!(u64::decode(&mut bytes_of(v.encode())), v);
    }
    for _ in 0..1024 {
        let v = rng.gen_range(u128::MIN..=u128::MAX);
        assert_eq!(u128::decode(&mut bytes_of(v.encode())), v);
    }
    for _ in 0..1024 {
        let v = rng.gen_range(usize::MIN..=usize::MAX);
        assert_eq!(usize::decode(&mut bytes_of(v.encode())), v);
    }
    for _ in 0..1024 {
        let v = rng.gen_range(i8::MIN..=i8::MAX);
        assert_eq!(i8::decode(&mut bytes_of(v.encode())), v);
    }
    for _ in 0..1024 {
        let v = rng.gen_range(i16::MIN..=i16::MAX);
        assert_eq!(i16::decode(&mut bytes_of(v.encode())), v);
    }
    for _ in 0..1024 {
        let v = rng.gen_range(i32::MIN..=i32::MAX);
        assert_eq!(i32::decode(&mut bytes_of(v.encode())), v);
    }
    for _ in 0..1024 {
        let v = rng.gen_range(i64::MIN..=i64::MAX);
        assert_eq!(i64::decode(&mut bytes_of(v.encode())), v);
    }
    for _ in 0..1024 {
        let v = rng.gen_range(i128::MIN..=i128::MAX);
        assert_eq!(i128::decode(&mut bytes_of(v.encode())), v);
    }
    for _ in 0..1024 {
        let v = rng.gen_range(isize::MIN..=isize::MAX);
        assert_eq!(isize::decode(&mut bytes_of(v.encode())), v);
    }
}

#[test]
fn test_vecs() {
    assert_eq!(
        Vec::<i32>::decode(&mut ByteIter::new(
            vec![
                -1481226730,
                -2050900860,
                1398413233,
                1179549798,
                57731936,
                987165288,
                520248252,
                -216621864,
                310968107,
                1116392241
            ]
            .encode()
        )),
        vec![
            -1481226730,
            -2050900860,
            1398413233,
            1179549798,
            57731936,
            987165288,
            520248252,
            -216621864,
            310968107,
            1116392241
        ]
    );
}

#[test]
fn test_strs() {
    assert_eq!(
        "asd".encode(),
        vec![0, 0, 0, 0, 0, 0, 0, 3, 0x61, 0x73, 0x64]
    );
    assert_eq!(
        String::decode(&mut ByteIter::new("asd".encode())),
        "asd".to_owned()
    );
    assert_eq!(
        String::decode(&mut ByteIter::new("asd".to_owned().encode())),
        "asd".to_owned()
    );
}

#[test]
fn test_hashmaps() {
    let mut map = HashMap::new();
    map.insert((0, 2, 5), "acf".to_owned());
    map.insert((20, 10, 0), "zka".to_owned());

    assert_eq!(HashMap::decode(&mut ByteIter::new(map.encode())), map);
}

#[test]
fn ints_are_big_endian_of_fixed_width() {
    assert_eq!(0x0102u16.encode(), vec![1, 2]);
    assert_eq!(0x01020304u32.encode(), vec![1, 2, 3, 4]);
    assert_eq!(1u64.encode(), vec![0, 0, 0, 0, 0, 0, 0, 1]);
    assert_eq!(7u8.encode(), vec![7]);
    assert_eq!(1u128.encode().len(), 16);
    assert_eq!(1u128.encode()[15], 1);
    assert_eq!(5usize.encode().len(), std::mem::size_of::<usize>());
}

#[test]
fn negative_ints_use_twos_complement() {
    assert_eq!((-1i8).encode(), vec![0xff]);
    assert_eq!((-2i16).encode(), vec![0xff, 0xfe]);
    assert_eq!(i32::MIN.encode(), vec![0x80, 0, 0, 0]);
    assert_eq!((-1i64).encode(), vec![0xff; 8]);
    assert_eq!(i128::MIN.encode()[0], 0x80);
    assert_eq!(i32::decode(&mut ByteIter::new(vec![0xff, 0xff, 0xff, 0xfe])), -2);
    assert_eq!(i128::decode(&mut ByteIter::new(vec![0xff; 16])), -1);
    assert_eq!(isize::decode(&mut ByteIter::new((-5isize).encode())), -5);
    assert_eq!(i8::decode(&mut ByteIter::new(vec![0x7f])), 127);
}

#[test]
fn decoding_takes_only_its_own_bytes() {
    let mut iter = ByteIter::new(vec![0, 0, 1, 0, 9, 8]);
    assert_eq!(u32::decode(&mut iter), 256);
    assert_eq!(iter.len(), 2);
    assert_eq!(iter.next(), Some(9));
    assert_eq!(iter.next(), Some(8));
    assert_eq!(iter.next(), None);
    assert_eq!(iter.len(), 0);
}

#[test]
fn bools_take_one_byte() {
    assert_eq!(true.encode(), vec![1]);
    assert_eq!(false.encode(), vec![0]);
    assert!(bool::decode(&mut ByteIter::new(vec![1])));
    assert!(bool::decode(&mut ByteIter::new(vec![7])));
    assert!(!bool::decode(&mut ByteIter::new(vec![0])));
}

#[test]
fn options_take_a_tag() {
    assert_eq!(Some(3u16).encode(), vec![1, 0, 3]);
    assert_eq!(None::<u16>.encode(), vec![0]);
    assert_eq!(Option::<u16>::decode(&mut ByteIter::new(vec![1, 0, 3])), Some(3));
    assert_eq!(Option::<u16>::decode(&mut ByteIter::new(vec![0, 0, 3])), None);
    assert_eq!(Option::<u8>::decode(&mut ByteIter::new(vec![2, 9])), Some(9));
}

#[test]
fn results_read_an_option_then_the_error() {
    let ok: Result<u8, u16> = Result::decode(&mut ByteIter::new(Some(5u8).encode()));
    assert_eq!(ok, Ok(5));
    let mut bytes = None::<u8>.encode();
    bytes.extend(7u16.encode());
    let err: Result<u8, u16> = Result::decode(&mut ByteIter::new(bytes));
    assert_eq!(err, Err(7));
}

#[test]
fn strings_are_length_then_utf8() {
    let s = "héllo".to_owned();
    let enc = s.encode();
    assert_eq!(enc.len(), std::mem::size_of::<usize>() + 6);
    assert_eq!(&enc[enc.len() - 6..], "héllo".as_bytes());
    assert_eq!(String::decode(&mut ByteIter::new(enc)), s);
    assert_eq!(String::decode(&mut ByteIter::new("".encode())), "");
}

#[test]
fn vecs_are_count_then_items() {
    let v: Vec<u16> = vec![1, 0x203];
    let mut expected = 2usize.encode();
    expected.extend([0, 1, 2, 3]);
    assert_eq!(v.encode(), expected);
    assert_eq!(Vec::<u16>::decode(&mut ByteIter::new(expected)), v);
    let empty: Vec<u64> = vec![];
    assert_eq!(Vec::<u64>::decode(&mut ByteIter::new(empty.encode())), empty);
    let nested = vec![vec!["a".to_owned()], vec![], vec!["bc".to_owned(), "".to_owned()]];
    assert_eq!(Vec::<Vec<String>>::decode(&mut ByteIter::new(nested.encode())), nested);
}

#[test]
fn boxed_slices_read_like_vecs() {
    let v: Vec<i16> = vec![-1, 2, -3];
    let b = Box::<[i16]>::decode(&mut ByteIter::new(v.encode()));
    assert_eq!(&*b, &[-1, 2, -3][..]);
}

#[test]
fn arrays_read_items_without_a_count() {
    let a = <[u8; 3]>::decode(&mut ByteIter::new(vec![4, 5, 6, 7]));
    assert_eq!(a, [4, 5, 6]);
    let b = <[u16; 2]>::decode(&mut ByteIter::new(vec![0, 1, 1, 0]));
    assert_eq!(b, [1, 256]);
    let z = <[u32; 0]>::decode(&mut ByteIter::new(vec![]));
    assert_eq!(z, []);
}

#[test]
fn pointers_read_what_they_hold() {
    assert_eq!(*Box::<u32>::decode(&mut ByteIter::new(9u32.encode())), 9);
    assert_eq!(*Rc::<i8>::decode(&mut ByteIter::new(vec![0xfe])), -2);
    let mut iter = ByteIter::new(vec![1]);
    let _: PhantomData<String> = PhantomData::decode(&mut iter);
    assert_eq!(iter.len(), 1);
}

#[test]
fn tuples_are_their_items_in_order() {
    let t = (1u8, -1i16, true, "x".to_owned());
    let enc = t.encode();
    assert_eq!(enc[..4].to_vec(), vec![1, 0xff, 0xff, 1]);
    assert_eq!(<(u8, i16, bool, String)>::decode(&mut ByteIter::new(enc)), t);
    assert_eq!(().encode(), Vec::<u8>::new());
    let one = (5u32,);
    assert_eq!(<(u32,)>::decode(&mut ByteIter::new(one.encode())), one);
    let big = (1u8, 2u8, 3u8, 4u8, 5u8, 6u8, 7u8, 8u8, 9u8, 10u8, 11u8, 12u8, 13u8, 14u8, 15u8, 16u8);
    assert_eq!(big.encode(), (1..=16).collect::<Vec<u8>>());
    let back = <(u8, u8, u8, u8, u8, u8, u8, u8, u8, u8, u8, u8, u8, u8, u8, u8)>::decode(&mut ByteIter::new(big.encode()));
    assert_eq!(back.0, 1);
    assert_eq!(back.7, 8);
    assert_eq!(back.15, 16);
}

#[test]
fn hashmaps_write_each_entry_once() {
    let mut map: HashMap<u8, bool> = HashMap::new();
    map.insert(1, true);
    map.insert(2, false);
    let enc = map.encode();
    assert_eq!(enc.len(), std::mem::size_of::<usize>() + 4);
    let mut pairs: Vec<(u8, u8)> = enc[enc.len() - 4..].chunks(2).map(|c| (c[0], c[1])).collect();
    pairs.sort();
    assert_eq!(pairs, vec![(1, 1), (2, 0)]);
}

#[test]
fn hashmaps_keep_the_last_of_repeated_keys() {
    let mut bytes = 3usize.encode();
    bytes.extend([1, 10, 2, 20, 1, 30]);
    let map = HashMap::<u8, u8>::decode(&mut ByteIter::new(bytes));
    assert_eq!(map.len(), 2);
    assert_eq!(map[&1], 30);
    assert_eq!(map[&2], 20);
}

#[test]
fn encode_internal_appends() {
    let mut vec = vec![9];
    5u16.encode_internal(&mut vec);
    "a".encode_internal(&mut vec);
    assert_eq!(vec[..3].to_vec(), vec![9, 0, 5]);
    assert_eq!(vec[vec.len() - 1], b'a');
}

#[test]
fn encode_matches_encode_internal_on_an_empty_vector() {
    let value = (Some(vec!["ab".to_owned()]), -3i64, true);
    let mut appended = Vec::new();
    value.encode_internal(&mut appended);
    assert_eq!(value.encode(), appended);
}

#[test]
fn boxes_and_shared_pointers_read_like_their_contents() {
    let bytes = vec![0, 7, 1];
    let boxed = Box::<u16>::decode(&mut ByteIter::new(bytes.clone()));
    let shared = Rc::<u16>::decode(&mut ByteIter::new(bytes.clone()));
    let plain = u16::decode(&mut ByteIter::new(bytes));
    assert_eq!(*boxed, plain);
    assert_eq!(*shared, plain);
    assert_eq!(Rc::strong_count(&shared), 1);
}

#[test]
fn vecs_read_like_boxed_slices() {
    let bytes = vec![0, 0, 0, 0, 0, 0, 0, 1, 0, 5, 9];
    let mut it1 = ByteIter::new(bytes.clone());
    let mut it2 = ByteIter::new(bytes);
    let v = Vec::<u16>::decode(&mut it1);
    let b = Box::<[u16]>::decode(&mut it2).into_vec();
    assert_eq!(v, b);
    assert_eq!(v, vec![5u16]);
    assert_eq!(it1.next(), Some(9));
    assert_eq!(it2.next(), Some(9));
}

#[test]
fn map_encode_matches_encode_internal() {
    let mut map: HashMap<u32, String> = HashMap::new();
    for i in 0..20u32 {
        map.insert(i * 7, format!("v{i}"));
    }
    let mut appended = Vec::new();
    map.encode_internal(&mut appended);
    assert_eq!(map.encode(), appended);
}
