//! A compact binary encoding: values are written as bytes by `Encode` and
//! read back by `Decode`. Integers are big-endian and of fixed width,
//! lengths are written as `usize`, `bool` and `Option` tags take one byte.
use vstd::prelude::*;

pub mod big_endian;
pub mod canonical;
pub mod decode;
pub mod encode;
pub mod entries;
pub mod input;
pub mod int_format;
pub mod model;
pub mod roundtrip;

pub use decode::Decode;
pub use encode::Encode;
pub use input::ByteIter;
pub use model::Model;
pub use roundtrip::RoundTrip;
pub use canonical::{ModelInjective, UniqueEncoding};
