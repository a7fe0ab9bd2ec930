//! What the bytes of an integer are, stated digit by digit.
use vstd::prelude::*;
use vstd::arithmetic::power::pow;
use vstd::layout::size_of;
use crate::big_endian::{be_value, lemma_be_bytes_of_value, lemma_be_value_bound, lemma_encoding_digits, lemma_pow256_values, lemma_unsigned_of_signed, lemma_usize_width, to_unsigned, usize_width};
use crate::decode::Decode;
use crate::encode::Encode;

verus! {

/// A `u8` is written as exactly as many bytes as a `u8` has, byte `i`
/// being digit `i` of it in base 256, most significant first.
pub proof fn lemma_u8_encoding(m: u8, bytes: Seq<u8>)
    ensures
        <u8 as Encode>::spec_encoding(m, bytes) <==> {
            &&& bytes.len() == size_of::<u8>()
            &&& forall|i: int|
                0 <= i < bytes.len() ==> #[trigger] bytes[i] as int == ((m as int + if m < 0 {
                    pow(256, size_of::<u8>())
                } else {
                    0
                }) / pow(256, (size_of::<u8>() - 1 - i) as nat)) % 256
        },
{
    lemma_pow256_values();
    lemma_encoding_digits(m as int, 1, bytes);
}

/// Reading a `u8` needs and takes exactly as many bytes as a `u8` has, and
/// gives the `u8` whose digits in base 256 those bytes are, most
/// significant first.
pub proof fn lemma_u8_decoding(bytes: Seq<u8>)
    ensures
        <u8 as Decode>::spec_decode(bytes) is Some <==> bytes.len() >= size_of::<u8>(),
        <u8 as Decode>::spec_decode(bytes) matches Some((m, n)) ==> {
            &&& n == size_of::<u8>()
            &&& forall|i: int|
                0 <= i < bytes.take(n as int).len() ==> #[trigger] bytes.take(n as int)[i] as int == ((m as int + if m < 0 {
                    pow(256, size_of::<u8>())
                } else {
                    0
                }) / pow(256, (size_of::<u8>() - 1 - i) as nat)) % 256
        },
{
    lemma_pow256_values();
    if bytes.len() >= 1 {
        let s = bytes.take(1 as int);
        let u = be_value(s);
        lemma_be_value_bound(s);
        lemma_be_bytes_of_value(s);
        
        let m = <u8 as Decode>::spec_decode(bytes).unwrap().0;
        assert(to_unsigned(m as int, 1) == u);
        lemma_encoding_digits(m as int, 1, s);
    }
}

/// A `u16` is written as exactly as many bytes as a `u16` has, byte `i`
/// being digit `i` of it in base 256, most significant first.
pub proof fn lemma_u16_encoding(m: u16, bytes: Seq<u8>)
    ensures
        <u16 as Encode>::spec_encoding(m, bytes) <==> {
            &&& bytes.len() == size_of::<u16>()
            &&& forall|i: int|
                0 <= i < bytes.len() ==> #[trigger] bytes[i] as int == ((m as int + if m < 0 {
                    pow(256, size_of::<u16>())
                } else {
                    0
                }) / pow(256, (size_of::<u16>() - 1 - i) as nat)) % 256
        },
{
    lemma_pow256_values();
    lemma_encoding_digits(m as int, 2, bytes);
}

/// Reading a `u16` needs and takes exactly as many bytes as a `u16` has, and
/// gives the `u16` whose digits in base 256 those bytes are, most
/// significant first.
pub proof fn lemma_u16_decoding(bytes: Seq<u8>)
    ensures
        <u16 as Decode>::spec_decode(bytes) is Some <==> bytes.len() >= size_of::<u16>(),
        <u16 as Decode>::spec_decode(bytes) matches Some((m, n)) ==> {
            &&& n == size_of::<u16>()
            &&& forall|i: int|
                0 <= i < bytes.take(n as int).len() ==> #[trigger] bytes.take(n as int)[i] as int == ((m as int + if m < 0 {
                    pow(256, size_of::<u16>())
                } else {
                    0
                }) / pow(256, (size_of::<u16>() - 1 - i) as nat)) % 256
        },
{
    lemma_pow256_values();
    if bytes.len() >= 2 {
        let s = bytes.take(2 as int);
        let u = be_value(s);
        lemma_be_value_bound(s);
        lemma_be_bytes_of_value(s);
        
        let m = <u16 as Decode>::spec_decode(bytes).unwrap().0;
        assert(to_unsigned(m as int, 2) == u);
        lemma_encoding_digits(m as int, 2, s);
    }
}

/// A `u32` is written as exactly as many bytes as a `u32` has, byte `i`
/// being digit `i` of it in base 256, most significant first.
pub proof fn lemma_u32_encoding(m: u32, bytes: Seq<u8>)
    ensures
        <u32 as Encode>::spec_encoding(m, bytes) <==> {
            &&& bytes.len() == size_of::<u32>()
            &&& forall|i: int|
                0 <= i < bytes.len() ==> #[trigger] bytes[i] as int == ((m as int + if m < 0 {
                    pow(256, size_of::<u32>())
                } else {
                    0
                }) / pow(256, (size_of::<u32>() - 1 - i) as nat)) % 256
        },
{
    lemma_pow256_values();
    lemma_encoding_digits(m as int, 4, bytes);
}

/// Reading a `u32` needs and takes exactly as many bytes as a `u32` has, and
/// gives the `u32` whose digits in base 256 those bytes are, most
/// significant first.
pub proof fn lemma_u32_decoding(bytes: Seq<u8>)
    ensures
        <u32 as Decode>::spec_decode(bytes) is Some <==> bytes.len() >= size_of::<u32>(),
        <u32 as Decode>::spec_decode(bytes) matches Some((m, n)) ==> {
            &&& n == size_of::<u32>()
            &&& forall|i: int|
                0 <= i < bytes.take(n as int).len() ==> #[trigger] bytes.take(n as int)[i] as int == ((m as int + if m < 0 {
                    pow(256, size_of::<u32>())
                } else {
                    0
                }) / pow(256, (size_of::<u32>() - 1 - i) as nat)) % 256
        },
{
    lemma_pow256_values();
    if bytes.len() >= 4 {
        let s = bytes.take(4 as int);
        let u = be_value(s);
        lemma_be_value_bound(s);
        lemma_be_bytes_of_value(s);
        
        let m = <u32 as Decode>::spec_decode(bytes).unwrap().0;
        assert(to_unsigned(m as int, 4) == u);
        lemma_encoding_digits(m as int, 4, s);
    }
}

/// A `u64` is written as exactly as many bytes as a `u64` has, byte `i`
/// being digit `i` of it in base 256, most significant first.
pub proof fn lemma_u64_encoding(m: u64, bytes: Seq<u8>)
    ensures
        <u64 as Encode>::spec_encoding(m, bytes) <==> {
            &&& bytes.len() == size_of::<u64>()
            &&& forall|i: int|
                0 <= i < bytes.len() ==> #[trigger] bytes[i] as int == ((m as int + if m < 0 {
                    pow(256, size_of::<u64>())
                } else {
                    0
                }) / pow(256, (size_of::<u64>() - 1 - i) as nat)) % 256
        },
{
    lemma_pow256_values();
    lemma_encoding_digits(m as int, 8, bytes);
}

/// Reading a `u64` needs and takes exactly as many bytes as a `u64` has, and
/// gives the `u64` whose digits in base 256 those bytes are, most
/// significant first.
pub proof fn lemma_u64_decoding(bytes: Seq<u8>)
    ensures
        <u64 as Decode>::spec_decode(bytes) is Some <==> bytes.len() >= size_of::<u64>(),
        <u64 as Decode>::spec_decode(bytes) matches Some((m, n)) ==> {
            &&& n == size_of::<u64>()
            &&& forall|i: int|
                0 <= i < bytes.take(n as int).len() ==> #[trigger] bytes.take(n as int)[i] as int == ((m as int + if m < 0 {
                    pow(256, size_of::<u64>())
                } else {
                    0
                }) / pow(256, (size_of::<u64>() - 1 - i) as nat)) % 256
        },
{
    lemma_pow256_values();
    if bytes.len() >= 8 {
        let s = bytes.take(8 as int);
        let u = be_value(s);
        lemma_be_value_bound(s);
        lemma_be_bytes_of_value(s);
        
        let m = <u64 as Decode>::spec_decode(bytes).unwrap().0;
        assert(to_unsigned(m as int, 8) == u);
        lemma_encoding_digits(m as int, 8, s);
    }
}

/// A `u128` is written as exactly as many bytes as a `u128` has, byte `i`
/// being digit `i` of it in base 256, most significant first.
pub proof fn lemma_u128_encoding(m: u128, bytes: Seq<u8>)
    ensures
        <u128 as Encode>::spec_encoding(m, bytes) <==> {
            &&& bytes.len() == size_of::<u128>()
            &&& forall|i: int|
                0 <= i < bytes.len() ==> #[trigger] bytes[i] as int == ((m as int + if m < 0 {
                    pow(256, size_of::<u128>())
                } else {
                    0
                }) / pow(256, (size_of::<u128>() - 1 - i) as nat)) % 256
        },
{
    lemma_pow256_values();
    lemma_encoding_digits(m as int, 16, bytes);
}

/// Reading a `u128` needs and takes exactly as many bytes as a `u128` has, and
/// gives the `u128` whose digits in base 256 those bytes are, most
/// significant first.
pub proof fn lemma_u128_decoding(bytes: Seq<u8>)
    ensures
        <u128 as Decode>::spec_decode(bytes) is Some <==> bytes.len() >= size_of::<u128>(),
        <u128 as Decode>::spec_decode(bytes) matches Some((m, n)) ==> {
            &&& n == size_of::<u128>()
            &&& forall|i: int|
                0 <= i < bytes.take(n as int).len() ==> #[trigger] bytes.take(n as int)[i] as int == ((m as int + if m < 0 {
                    pow(256, size_of::<u128>())
                } else {
                    0
                }) / pow(256, (size_of::<u128>() - 1 - i) as nat)) % 256
        },
{
    lemma_pow256_values();
    if bytes.len() >= 16 {
        let s = bytes.take(16 as int);
        let u = be_value(s);
        lemma_be_value_bound(s);
        lemma_be_bytes_of_value(s);
        
        let m = <u128 as Decode>::spec_decode(bytes).unwrap().0;
        assert(to_unsigned(m as int, 16) == u);
        lemma_encoding_digits(m as int, 16, s);
    }
}

/// A `usize` is written as exactly as many bytes as a `usize` has, byte `i`
/// being digit `i` of it in base 256, most significant first.
pub proof fn lemma_usize_encoding(m: usize, bytes: Seq<u8>)
    ensures
        <usize as Encode>::spec_encoding(m, bytes) <==> {
            &&& bytes.len() == size_of::<usize>()
            &&& forall|i: int|
                0 <= i < bytes.len() ==> #[trigger] bytes[i] as int == ((m as int + if m < 0 {
                    pow(256, size_of::<usize>())
                } else {
                    0
                }) / pow(256, (size_of::<usize>() - 1 - i) as nat)) % 256
        },
{
    lemma_usize_width();
    lemma_encoding_digits(m as int, usize_width(), bytes);
}

/// Reading a `usize` needs and takes exactly as many bytes as a `usize` has, and
/// gives the `usize` whose digits in base 256 those bytes are, most
/// significant first.
pub proof fn lemma_usize_decoding(bytes: Seq<u8>)
    ensures
        <usize as Decode>::spec_decode(bytes) is Some <==> bytes.len() >= size_of::<usize>(),
        <usize as Decode>::spec_decode(bytes) matches Some((m, n)) ==> {
            &&& n == size_of::<usize>()
            &&& forall|i: int|
                0 <= i < bytes.take(n as int).len() ==> #[trigger] bytes.take(n as int)[i] as int == ((m as int + if m < 0 {
                    pow(256, size_of::<usize>())
                } else {
                    0
                }) / pow(256, (size_of::<usize>() - 1 - i) as nat)) % 256
        },
{
    lemma_usize_width();
    if bytes.len() >= usize_width() {
        let s = bytes.take(usize_width() as int);
        let u = be_value(s);
        lemma_be_value_bound(s);
        lemma_be_bytes_of_value(s);
        
        let m = <usize as Decode>::spec_decode(bytes).unwrap().0;
        assert(to_unsigned(m as int, usize_width()) == u);
        lemma_encoding_digits(m as int, usize_width(), s);
    }
}

/// A `i8` is written as exactly as many bytes as a `i8` has, byte `i`
/// being digit `i` of its two's complement in base 256, most significant first.
pub proof fn lemma_i8_encoding(m: i8, bytes: Seq<u8>)
    ensures
        <i8 as Encode>::spec_encoding(m, bytes) <==> {
            &&& bytes.len() == size_of::<i8>()
            &&& forall|i: int|
                0 <= i < bytes.len() ==> #[trigger] bytes[i] as int == ((m as int + if m < 0 {
                    pow(256, size_of::<i8>())
                } else {
                    0
                }) / pow(256, (size_of::<i8>() - 1 - i) as nat)) % 256
        },
{
    lemma_pow256_values();
    lemma_encoding_digits(m as int, 1, bytes);
}

/// Reading a `i8` needs and takes exactly as many bytes as a `i8` has, and
/// gives the `i8` whose digits in base 256 those bytes are, most
/// significant first.
pub proof fn lemma_i8_decoding(bytes: Seq<u8>)
    ensures
        <i8 as Decode>::spec_decode(bytes) is Some <==> bytes.len() >= size_of::<i8>(),
        <i8 as Decode>::spec_decode(bytes) matches Some((m, n)) ==> {
            &&& n == size_of::<i8>()
            &&& forall|i: int|
                0 <= i < bytes.take(n as int).len() ==> #[trigger] bytes.take(n as int)[i] as int == ((m as int + if m < 0 {
                    pow(256, size_of::<i8>())
                } else {
                    0
                }) / pow(256, (size_of::<i8>() - 1 - i) as nat)) % 256
        },
{
    lemma_pow256_values();
    if bytes.len() >= 1 {
        let s = bytes.take(1 as int);
        let u = be_value(s);
        lemma_be_value_bound(s);
        lemma_be_bytes_of_value(s);
        lemma_unsigned_of_signed(u, 1);
        let m = <i8 as Decode>::spec_decode(bytes).unwrap().0;
        assert(to_unsigned(m as int, 1) == u);
        lemma_encoding_digits(m as int, 1, s);
    }
}

/// A `i16` is written as exactly as many bytes as a `i16` has, byte `i`
/// being digit `i` of its two's complement in base 256, most significant first.
pub proof fn lemma_i16_encoding(m: i16, bytes: Seq<u8>)
    ensures
        <i16 as Encode>::spec_encoding(m, bytes) <==> {
            &&& bytes.len() == size_of::<i16>()
            &&& forall|i: int|
                0 <= i < bytes.len() ==> #[trigger] bytes[i] as int == ((m as int + if m < 0 {
                    pow(256, size_of::<i16>())
                } else {
                    0
                }) / pow(256, (size_of::<i16>() - 1 - i) as nat)) % 256
        },
{
    lemma_pow256_values();
    lemma_encoding_digits(m as int, 2, bytes);
}

/// Reading a `i16` needs and takes exactly as many bytes as a `i16` has, and
/// gives the `i16` whose digits in base 256 those bytes are, most
/// significant first.
pub proof fn lemma_i16_decoding(bytes: Seq<u8>)
    ensures
        <i16 as Decode>::spec_decode(bytes) is Some <==> bytes.len() >= size_of::<i16>(),
        <i16 as Decode>::spec_decode(bytes) matches Some((m, n)) ==> {
            &&& n == size_of::<i16>()
            &&& forall|i: int|
                0 <= i < bytes.take(n as int).len() ==> #[trigger] bytes.take(n as int)[i] as int == ((m as int + if m < 0 {
                    pow(256, size_of::<i16>())
                } else {
                    0
                }) / pow(256, (size_of::<i16>() - 1 - i) as nat)) % 256
        },
{
    lemma_pow256_values();
    if bytes.len() >= 2 {
        let s = bytes.take(2 as int);
        let u = be_value(s);
        lemma_be_value_bound(s);
        lemma_be_bytes_of_value(s);
        lemma_unsigned_of_signed(u, 2);
        let m = <i16 as Decode>::spec_decode(bytes).unwrap().0;
        assert(to_unsigned(m as int, 2) == u);
        lemma_encoding_digits(m as int, 2, s);
    }
}

/// A `i32` is written as exactly as many bytes as a `i32` has, byte `i`
/// being digit `i` of its two's complement in base 256, most significant first.
pub proof fn lemma_i32_encoding(m: i32, bytes: Seq<u8>)
    ensures
        <i32 as Encode>::spec_encoding(m, bytes) <==> {
            &&& bytes.len() == size_of::<i32>()
            &&& forall|i: int|
                0 <= i < bytes.len() ==> #[trigger] bytes[i] as int == ((m as int + if m < 0 {
                    pow(256, size_of::<i32>())
                } else {
                    0
                }) / pow(256, (size_of::<i32>() - 1 - i) as nat)) % 256
        },
{
    lemma_pow256_values();
    lemma_encoding_digits(m as int, 4, bytes);
}

/// Reading a `i32` needs and takes exactly as many bytes as a `i32` has, and
/// gives the `i32` whose digits in base 256 those bytes are, most
/// significant first.
pub proof fn lemma_i32_decoding(bytes: Seq<u8>)
    ensures
        <i32 as Decode>::spec_decode(bytes) is Some <==> bytes.len() >= size_of::<i32>(),
        <i32 as Decode>::spec_decode(bytes) matches Some((m, n)) ==> {
            &&& n == size_of::<i32>()
            &&& forall|i: int|
                0 <= i < bytes.take(n as int).len() ==> #[trigger] bytes.take(n as int)[i] as int == ((m as int + if m < 0 {
                    pow(256, size_of::<i32>())
                } else {
                    0
                }) / pow(256, (size_of::<i32>() - 1 - i) as nat)) % 256
        },
{
    lemma_pow256_values();
    if bytes.len() >= 4 {
        let s = bytes.take(4 as int);
        let u = be_value(s);
        lemma_be_value_bound(s);
        lemma_be_bytes_of_value(s);
        lemma_unsigned_of_signed(u, 4);
        let m = <i32 as Decode>::spec_decode(bytes).unwrap().0;
        assert(to_unsigned(m as int, 4) == u);
        lemma_encoding_digits(m as int, 4, s);
    }
}

/// A `i64` is written as exactly as many bytes as a `i64` has, byte `i`
/// being digit `i` of its two's complement in base 256, most significant first.
pub proof fn lemma_i64_encoding(m: i64, bytes: Seq<u8>)
    ensures
        <i64 as Encode>::spec_encoding(m, bytes) <==> {
            &&& bytes.len() == size_of::<i64>()
            &&& forall|i: int|
                0 <= i < bytes.len() ==> #[trigger] bytes[i] as int == ((m as int + if m < 0 {
                    pow(256, size_of::<i64>())
                } else {
                    0
                }) / pow(256, (size_of::<i64>() - 1 - i) as nat)) % 256
        },
{
    lemma_pow256_values();
    lemma_encoding_digits(m as int, 8, bytes);
}

/// Reading a `i64` needs and takes exactly as many bytes as a `i64` has, and
/// gives the `i64` whose digits in base 256 those bytes are, most
/// significant first.
pub proof fn lemma_i64_decoding(bytes: Seq<u8>)
    ensures
        <i64 as Decode>::spec_decode(bytes) is Some <==> bytes.len() >= size_of::<i64>(),
        <i64 as Decode>::spec_decode(bytes) matches Some((m, n)) ==> {
            &&& n == size_of::<i64>()
            &&& forall|i: int|
                0 <= i < bytes.take(n as int).len() ==> #[trigger] bytes.take(n as int)[i] as int == ((m as int + if m < 0 {
                    pow(256, size_of::<i64>())
                } else {
                    0
                }) / pow(256, (size_of::<i64>() - 1 - i) as nat)) % 256
        },
{
    lemma_pow256_values();
    if bytes.len() >= 8 {
        let s = bytes.take(8 as int);
        let u = be_value(s);
        lemma_be_value_bound(s);
        lemma_be_bytes_of_value(s);
        lemma_unsigned_of_signed(u, 8);
        let m = <i64 as Decode>::spec_decode(bytes).unwrap().0;
        assert(to_unsigned(m as int, 8) == u);
        lemma_encoding_digits(m as int, 8, s);
    }
}

/// A `i128` is written as exactly as many bytes as a `i128` has, byte `i`
/// being digit `i` of its two's complement in base 256, most significant first.
pub proof fn lemma_i128_encoding(m: i128, bytes: Seq<u8>)
    ensures
        <i128 as Encode>::spec_encoding(m, bytes) <==> {
            &&& bytes.len() == size_of::<i128>()
            &&& forall|i: int|
                0 <= i < bytes.len() ==> #[trigger] bytes[i] as int == ((m as int + if m < 0 {
                    pow(256, size_of::<i128>())
                } else {
                    0
                }) / pow(256, (size_of::<i128>() - 1 - i) as nat)) % 256
        },
{
    lemma_pow256_values();
    lemma_encoding_digits(m as int, 16, bytes);
}

/// Reading a `i128` needs and takes exactly as many bytes as a `i128` has, and
/// gives the `i128` whose digits in base 256 those bytes are, most
/// significant first.
pub proof fn lemma_i128_decoding(bytes: Seq<u8>)
    ensures
        <i128 as Decode>::spec_decode(bytes) is Some <==> bytes.len() >= size_of::<i128>(),
        <i128 as Decode>::spec_decode(bytes) matches Some((m, n)) ==> {
            &&& n == size_of::<i128>()
            &&& forall|i: int|
                0 <= i < bytes.take(n as int).len() ==> #[trigger] bytes.take(n as int)[i] as int == ((m as int + if m < 0 {
                    pow(256, size_of::<i128>())
                } else {
                    0
                }) / pow(256, (size_of::<i128>() - 1 - i) as nat)) % 256
        },
{
    lemma_pow256_values();
    if bytes.len() >= 16 {
        let s = bytes.take(16 as int);
        let u = be_value(s);
        lemma_be_value_bound(s);
        lemma_be_bytes_of_value(s);
        lemma_unsigned_of_signed(u, 16);
        let m = <i128 as Decode>::spec_decode(bytes).unwrap().0;
        assert(to_unsigned(m as int, 16) == u);
        lemma_encoding_digits(m as int, 16, s);
    }
}

/// A `isize` is written as exactly as many bytes as a `isize` has, byte `i`
/// being digit `i` of its two's complement in base 256, most significant first.
pub proof fn lemma_isize_encoding(m: isize, bytes: Seq<u8>)
    ensures
        <isize as Encode>::spec_encoding(m, bytes) <==> {
            &&& bytes.len() == size_of::<isize>()
            &&& forall|i: int|
                0 <= i < bytes.len() ==> #[trigger] bytes[i] as int == ((m as int + if m < 0 {
                    pow(256, size_of::<isize>())
                } else {
                    0
                }) / pow(256, (size_of::<isize>() - 1 - i) as nat)) % 256
        },
{
    lemma_usize_width();
    lemma_encoding_digits(m as int, usize_width(), bytes);
}

/// Reading a `isize` needs and takes exactly as many bytes as a `isize` has, and
/// gives the `isize` whose digits in base 256 those bytes are, most
/// significant first.
pub proof fn lemma_isize_decoding(bytes: Seq<u8>)
    ensures
        <isize as Decode>::spec_decode(bytes) is Some <==> bytes.len() >= size_of::<isize>(),
        <isize as Decode>::spec_decode(bytes) matches Some((m, n)) ==> {
            &&& n == size_of::<isize>()
            &&& forall|i: int|
                0 <= i < bytes.take(n as int).len() ==> #[trigger] bytes.take(n as int)[i] as int == ((m as int + if m < 0 {
                    pow(256, size_of::<isize>())
                } else {
                    0
                }) / pow(256, (size_of::<isize>() - 1 - i) as nat)) % 256
        },
{
    lemma_usize_width();
    if bytes.len() >= usize_width() {
        let s = bytes.take(usize_width() as int);
        let u = be_value(s);
        lemma_be_value_bound(s);
        lemma_be_bytes_of_value(s);
        lemma_unsigned_of_signed(u, usize_width());
        let m = <isize as Decode>::spec_decode(bytes).unwrap().0;
        assert(to_unsigned(m as int, usize_width()) == u);
        lemma_encoding_digits(m as int, usize_width(), s);
    }
}


} // verus!
