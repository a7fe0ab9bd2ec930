//! The mathematical value that each encodable or decodable type stands for.
use vstd::prelude::*;
use std::marker::PhantomData;
use std::rc::Rc;
use std::collections::HashMap;
use vstd::std_specs::hash::obeys_key_model;
use crate::entries::{map_model, model_injective};

verus! {

/// A type whose values have a mathematical model, used by the contracts of
/// `Encode` and `Decode`: integers and `bool` stand for themselves, strings
/// for their characters, vectors and slices for sequences of their items'
/// models, boxes and shared pointers for the model of what they hold.
pub trait Model {
    type M;

    /// The model of `self`.
    spec fn model(&self) -> Self::M;

    /// Whether the standard-library behaviour that the contracts rely on
    /// holds for this type. It does for every type but hash maps, whose
    /// key type must follow vstd's hash-table key model, and must give
    /// distinct keys distinct models.
    spec fn well_behaved() -> bool;
}

impl Model for u8 {
    type M = u8;

    open spec fn model(&self) -> u8 {
        *self
    }

    open spec fn well_behaved() -> bool {
        true
    }
}

impl Model for u16 {
    type M = u16;

    open spec fn model(&self) -> u16 {
        *self
    }

    open spec fn well_behaved() -> bool {
        true
    }
}

impl Model for u32 {
    type M = u32;

    open spec fn model(&self) -> u32 {
        *self
    }

    open spec fn well_behaved() -> bool {
        true
    }
}

impl Model for u64 {
    type M = u64;

    open spec fn model(&self) -> u64 {
        *self
    }

    open spec fn well_behaved() -> bool {
        true
    }
}

impl Model for u128 {
    type M = u128;

    open spec fn model(&self) -> u128 {
        *self
    }

    open spec fn well_behaved() -> bool {
        true
    }
}

impl Model for usize {
    type M = usize;

    open spec fn model(&self) -> usize {
        *self
    }

    open spec fn well_behaved() -> bool {
        true
    }
}

impl Model for i8 {
    type M = i8;

    open spec fn model(&self) -> i8 {
        *self
    }

    open spec fn well_behaved() -> bool {
        true
    }
}

impl Model for i16 {
    type M = i16;

    open spec fn model(&self) -> i16 {
        *self
    }

    open spec fn well_behaved() -> bool {
        true
    }
}

impl Model for i32 {
    type M = i32;

    open spec fn model(&self) -> i32 {
        *self
    }

    open spec fn well_behaved() -> bool {
        true
    }
}

impl Model for i64 {
    type M = i64;

    open spec fn model(&self) -> i64 {
        *self
    }

    open spec fn well_behaved() -> bool {
        true
    }
}

impl Model for i128 {
    type M = i128;

    open spec fn model(&self) -> i128 {
        *self
    }

    open spec fn well_behaved() -> bool {
        true
    }
}

impl Model for isize {
    type M = isize;

    open spec fn model(&self) -> isize {
        *self
    }

    open spec fn well_behaved() -> bool {
        true
    }
}

impl Model for bool {
    type M = bool;

    open spec fn model(&self) -> bool {
        *self
    }

    open spec fn well_behaved() -> bool {
        true
    }
}


impl<T: Model> Model for Option<T> {
    type M = Option<T::M>;

    open spec fn model(&self) -> Option<T::M> {
        match self {
            Some(v) => Some(v.model()),
            None => None,
        }
    }

    open spec fn well_behaved() -> bool {
        T::well_behaved()
    }
}

impl<T: Model, E: Model> Model for Result<T, E> {
    type M = Result<T::M, E::M>;

    open spec fn model(&self) -> Result<T::M, E::M> {
        match self {
            Ok(v) => Ok(v.model()),
            Err(e) => Err(e.model()),
        }
    }

    open spec fn well_behaved() -> bool {
        T::well_behaved() && E::well_behaved()
    }
}

impl Model for String {
    type M = Seq<char>;

    open spec fn model(&self) -> Seq<char> {
        self@
    }

    open spec fn well_behaved() -> bool {
        true
    }
}

impl<'a> Model for &'a str {
    type M = Seq<char>;

    open spec fn model(&self) -> Seq<char> {
        self@
    }

    open spec fn well_behaved() -> bool {
        true
    }
}

/// The models of the items of `s`, in order.
pub open spec fn models<T: Model>(s: Seq<T>) -> Seq<T::M> {
    s.map_values(|x: T| x.model())
}

impl<T: Model> Model for Vec<T> {
    type M = Seq<T::M>;

    open spec fn model(&self) -> Seq<T::M> {
        models(self@)
    }

    open spec fn well_behaved() -> bool {
        T::well_behaved()
    }
}

impl<T: Model> Model for Box<[T]> {
    type M = Seq<T::M>;

    open spec fn model(&self) -> Seq<T::M> {
        models(self@)
    }

    open spec fn well_behaved() -> bool {
        T::well_behaved()
    }
}

impl<T: Model, const N: usize> Model for [T; N] {
    type M = Seq<T::M>;

    open spec fn model(&self) -> Seq<T::M> {
        models(self@)
    }

    open spec fn well_behaved() -> bool {
        T::well_behaved()
    }
}

impl<T: Model> Model for Box<T> {
    type M = T::M;

    open spec fn model(&self) -> T::M {
        (**self).model()
    }

    open spec fn well_behaved() -> bool {
        T::well_behaved()
    }
}

impl<T: Model> Model for Rc<T> {
    type M = T::M;

    open spec fn model(&self) -> T::M {
        (**self).model()
    }

    open spec fn well_behaved() -> bool {
        T::well_behaved()
    }
}

impl<T> Model for PhantomData<T> {
    type M = ();

    open spec fn model(&self) -> () {
        ()
    }

    open spec fn well_behaved() -> bool {
        true
    }
}

impl<K: Model, V: Model> Model for HashMap<K, V> {
    type M = Map<K::M, V::M>;

    open spec fn model(&self) -> Map<K::M, V::M> {
        map_model(self@)
    }

    open spec fn well_behaved() -> bool {
        &&& obeys_key_model::<K>()
        &&& model_injective::<K>()
        &&& K::well_behaved()
        &&& V::well_behaved()
    }
}

impl Model for () {
    type M = ();

    open spec fn model(&self) -> () {
        ()
    }

    open spec fn well_behaved() -> bool {
        true
    }
}

impl<T0: Model> Model for (T0,) {
    type M = (T0::M,);

    open spec fn model(&self) -> Self::M {
        (self.0.model(),)
    }

    open spec fn well_behaved() -> bool {
        T0::well_behaved()
    }
}

impl<T0: Model, T1: Model> Model for (T0, T1) {
    type M = (T0::M, T1::M);

    open spec fn model(&self) -> Self::M {
        (self.0.model(), self.1.model())
    }

    open spec fn well_behaved() -> bool {
        T0::well_behaved() && T1::well_behaved()
    }
}

impl<T0: Model, T1: Model, T2: Model> Model for (T0, T1, T2) {
    type M = (T0::M, T1::M, T2::M);

    open spec fn model(&self) -> Self::M {
        (self.0.model(), self.1.model(), self.2.model())
    }

    open spec fn well_behaved() -> bool {
        T0::well_behaved() && T1::well_behaved() && T2::well_behaved()
    }
}

impl<T0: Model, T1: Model, T2: Model, T3: Model> Model for (T0, T1, T2, T3) {
    type M = (T0::M, T1::M, T2::M, T3::M);

    open spec fn model(&self) -> Self::M {
        (self.0.model(), self.1.model(), self.2.model(), self.3.model())
    }

    open spec fn well_behaved() -> bool {
        T0::well_behaved() && T1::well_behaved() && T2::well_behaved() && T3::well_behaved()
    }
}

impl<T0: Model, T1: Model, T2: Model, T3: Model, T4: Model> Model for (T0, T1, T2, T3, T4) {
    type M = (T0::M, T1::M, T2::M, T3::M, T4::M);

    open spec fn model(&self) -> Self::M {
        (self.0.model(), self.1.model(), self.2.model(), self.3.model(), self.4.model())
    }

    open spec fn well_behaved() -> bool {
        T0::well_behaved() && T1::well_behaved() && T2::well_behaved() && T3::well_behaved() && T4::well_behaved()
    }
}

impl<T0: Model, T1: Model, T2: Model, T3: Model, T4: Model, T5: Model> Model for (T0, T1, T2, T3, T4, T5) {
    type M = (T0::M, T1::M, T2::M, T3::M, T4::M, T5::M);

    open spec fn model(&self) -> Self::M {
        (self.0.model(), self.1.model(), self.2.model(), self.3.model(), self.4.model(), self.5.model())
    }

    open spec fn well_behaved() -> bool {
        T0::well_behaved() && T1::well_behaved() && T2::well_behaved() && T3::well_behaved() && T4::well_behaved() && T5::well_behaved()
    }
}

impl<T0: Model, T1: Model, T2: Model, T3: Model, T4: Model, T5: Model, T6: Model> Model for (T0, T1, T2, T3, T4, T5, T6) {
    type M = (T0::M, T1::M, T2::M, T3::M, T4::M, T5::M, T6::M);

    open spec fn model(&self) -> Self::M {
        (self.0.model(), self.1.model(), self.2.model(), self.3.model(), self.4.model(), self.5.model(), self.6.model())
    }

    open spec fn well_behaved() -> bool {
        T0::well_behaved() && T1::well_behaved() && T2::well_behaved() && T3::well_behaved() && T4::well_behaved() && T5::well_behaved() && T6::well_behaved()
    }
}

impl<T0: Model, T1: Model, T2: Model, T3: Model, T4: Model, T5: Model, T6: Model, T7: Model> Model for (T0, T1, T2, T3, T4, T5, T6, T7) {
    type M = (T0::M, T1::M, T2::M, T3::M, T4::M, T5::M, T6::M, T7::M);

    open spec fn model(&self) -> Self::M {
        (self.0.model(), self.1.model(), self.2.model(), self.3.model(), self.4.model(), self.5.model(), self.6.model(), self.7.model())
    }

    open spec fn well_behaved() -> bool {
        T0::well_behaved() && T1::well_behaved() && T2::well_behaved() && T3::well_behaved() && T4::well_behaved() && T5::well_behaved() && T6::well_behaved() && T7::well_behaved()
    }
}

impl<T0: Model, T1: Model, T2: Model, T3: Model, T4: Model, T5: Model, T6: Model, T7: Model, T8: Model> Model for (T0, T1, T2, T3, T4, T5, T6, T7, T8) {
    type M = (T0::M, T1::M, T2::M, T3::M, T4::M, T5::M, T6::M, T7::M, T8::M);

    open spec fn model(&self) -> Self::M {
        (self.0.model(), self.1.model(), self.2.model(), self.3.model(), self.4.model(), self.5.model(), self.6.model(), self.7.model(), self.8.model())
    }

    open spec fn well_behaved() -> bool {
        T0::well_behaved() && T1::well_behaved() && T2::well_behaved() && T3::well_behaved() && T4::well_behaved() && T5::well_behaved() && T6::well_behaved() && T7::well_behaved() && T8::well_behaved()
    }
}

impl<T0: Model, T1: Model, T2: Model, T3: Model, T4: Model, T5: Model, T6: Model, T7: Model, T8: Model, T9: Model> Model for (T0, T1, T2, T3, T4, T5, T6, T7, T8, T9) {
    type M = (T0::M, T1::M, T2::M, T3::M, T4::M, T5::M, T6::M, T7::M, T8::M, T9::M);

    open spec fn model(&self) -> Self::M {
        (self.0.model(), self.1.model(), self.2.model(), self.3.model(), self.4.model(), self.5.model(), self.6.model(), self.7.model(), self.8.model(), self.9.model())
    }

    open spec fn well_behaved() -> bool {
        T0::well_behaved() && T1::well_behaved() && T2::well_behaved() && T3::well_behaved() && T4::well_behaved() && T5::well_behaved() && T6::well_behaved() && T7::well_behaved() && T8::well_behaved() && T9::well_behaved()
    }
}

impl<T0: Model, T1: Model, T2: Model, T3: Model, T4: Model, T5: Model, T6: Model, T7: Model, T8: Model, T9: Model, T10: Model> Model for (T0, T1, T2, T3, T4, T5, T6, T7, T8, T9, T10) {
    type M = (T0::M, T1::M, T2::M, T3::M, T4::M, T5::M, T6::M, T7::M, T8::M, T9::M, T10::M);

    open spec fn model(&self) -> Self::M {
        (self.0.model(), self.1.model(), self.2.model(), self.3.model(), self.4.model(), self.5.model(), self.6.model(), self.7.model(), self.8.model(), self.9.model(), self.10.model())
    }

    open spec fn well_behaved() -> bool {
        T0::well_behaved() && T1::well_behaved() && T2::well_behaved() && T3::well_behaved() && T4::well_behaved() && T5::well_behaved() && T6::well_behaved() && T7::well_behaved() && T8::well_behaved() && T9::well_behaved() && T10::well_behaved()
    }
}

impl<T0: Model, T1: Model, T2: Model, T3: Model, T4: Model, T5: Model, T6: Model, T7: Model, T8: Model, T9: Model, T10: Model, T11: Model> Model for (T0, T1, T2, T3, T4, T5, T6, T7, T8, T9, T10, T11) {
    type M = (T0::M, T1::M, T2::M, T3::M, T4::M, T5::M, T6::M, T7::M, T8::M, T9::M, T10::M, T11::M);

    open spec fn model(&self) -> Self::M {
        (self.0.model(), self.1.model(), self.2.model(), self.3.model(), self.4.model(), self.5.model(), self.6.model(), self.7.model(), self.8.model(), self.9.model(), self.10.model(), self.11.model())
    }

    open spec fn well_behaved() -> bool {
        T0::well_behaved() && T1::well_behaved() && T2::well_behaved() && T3::well_behaved() && T4::well_behaved() && T5::well_behaved() && T6::well_behaved() && T7::well_behaved() && T8::well_behaved() && T9::well_behaved() && T10::well_behaved() && T11::well_behaved()
    }
}

impl<T0: Model, T1: Model, T2: Model, T3: Model, T4: Model, T5: Model, T6: Model, T7: Model, T8: Model, T9: Model, T10: Model, T11: Model, T12: Model> Model for (T0, T1, T2, T3, T4, T5, T6, T7, T8, T9, T10, T11, T12) {
    type M = (T0::M, T1::M, T2::M, T3::M, T4::M, T5::M, T6::M, T7::M, T8::M, T9::M, T10::M, T11::M, T12::M);

    open spec fn model(&self) -> Self::M {
        (self.0.model(), self.1.model(), self.2.model(), self.3.model(), self.4.model(), self.5.model(), self.6.model(), self.7.model(), self.8.model(), self.9.model(), self.10.model(), self.11.model(), self.12.model())
    }

    open spec fn well_behaved() -> bool {
        T0::well_behaved() && T1::well_behaved() && T2::well_behaved() && T3::well_behaved() && T4::well_behaved() && T5::well_behaved() && T6::well_behaved() && T7::well_behaved() && T8::well_behaved() && T9::well_behaved() && T10::well_behaved() && T11::well_behaved() && T12::well_behaved()
    }
}

impl<T0: Model, T1: Model, T2: Model, T3: Model, T4: Model, T5: Model, T6: Model, T7: Model, T8: Model, T9: Model, T10: Model, T11: Model, T12: Model, T13: Model> Model for (T0, T1, T2, T3, T4, T5, T6, T7, T8, T9, T10, T11, T12, T13) {
    type M = (T0::M, T1::M, T2::M, T3::M, T4::M, T5::M, T6::M, T7::M, T8::M, T9::M, T10::M, T11::M, T12::M, T13::M);

    open spec fn model(&self) -> Self::M {
        (self.0.model(), self.1.model(), self.2.model(), self.3.model(), self.4.model(), self.5.model(), self.6.model(), self.7.model(), self.8.model(), self.9.model(), self.10.model(), self.11.model(), self.12.model(), self.13.model())
    }

    open spec fn well_behaved() -> bool {
        T0::well_behaved() && T1::well_behaved() && T2::well_behaved() && T3::well_behaved() && T4::well_behaved() && T5::well_behaved() && T6::well_behaved() && T7::well_behaved() && T8::well_behaved() && T9::well_behaved() && T10::well_behaved() && T11::well_behaved() && T12::well_behaved() && T13::well_behaved()
    }
}

impl<T0: Model, T1: Model, T2: Model, T3: Model, T4: Model, T5: Model, T6: Model, T7: Model, T8: Model, T9: Model, T10: Model, T11: Model, T12: Model, T13: Model, T14: Model> Model for (T0, T1, T2, T3, T4, T5, T6, T7, T8, T9, T10, T11, T12, T13, T14) {
    type M = (T0::M, T1::M, T2::M, T3::M, T4::M, T5::M, T6::M, T7::M, T8::M, T9::M, T10::M, T11::M, T12::M, T13::M, T14::M);

    open spec fn model(&self) -> Self::M {
        (self.0.model(), self.1.model(), self.2.model(), self.3.model(), self.4.model(), self.5.model(), self.6.model(), self.7.model(), self.8.model(), self.9.model(), self.10.model(), self.11.model(), self.12.model(), self.13.model(), self.14.model())
    }

    open spec fn well_behaved() -> bool {
        T0::well_behaved() && T1::well_behaved() && T2::well_behaved() && T3::well_behaved() && T4::well_behaved() && T5::well_behaved() && T6::well_behaved() && T7::well_behaved() && T8::well_behaved() && T9::well_behaved() && T10::well_behaved() && T11::well_behaved() && T12::well_behaved() && T13::well_behaved() && T14::well_behaved()
    }
}

impl<T0: Model, T1: Model, T2: Model, T3: Model, T4: Model, T5: Model, T6: Model, T7: Model, T8: Model, T9: Model, T10: Model, T11: Model, T12: Model, T13: Model, T14: Model, T15: Model> Model for (T0, T1, T2, T3, T4, T5, T6, T7, T8, T9, T10, T11, T12, T13, T14, T15) {
    type M = (T0::M, T1::M, T2::M, T3::M, T4::M, T5::M, T6::M, T7::M, T8::M, T9::M, T10::M, T11::M, T12::M, T13::M, T14::M, T15::M);

    open spec fn model(&self) -> Self::M {
        (self.0.model(), self.1.model(), self.2.model(), self.3.model(), self.4.model(), self.5.model(), self.6.model(), self.7.model(), self.8.model(), self.9.model(), self.10.model(), self.11.model(), self.12.model(), self.13.model(), self.14.model(), self.15.model())
    }

    open spec fn well_behaved() -> bool {
        T0::well_behaved() && T1::well_behaved() && T2::well_behaved() && T3::well_behaved() && T4::well_behaved() && T5::well_behaved() && T6::well_behaved() && T7::well_behaved() && T8::well_behaved() && T9::well_behaved() && T10::well_behaved() && T11::well_behaved() && T12::well_behaved() && T13::well_behaved() && T14::well_behaved() && T15::well_behaved()
    }
}


} // verus!
