//! A parsed OCI document kept together with the raw bytes it was read from.
use vstd::prelude::*;

use std::fmt::Debug;

verus! {

/// An OCI item of type `T` and the exact bytes it was decoded from.
#[derive(Clone, Debug)]
pub struct OciStruct<T: Clone + Debug> {
    raw: Vec<u8>,
    item: T,
}

impl<T: Clone + Debug> OciStruct<T> {
    /// The raw bytes.
    pub closed spec fn raw_bytes(&self) -> Seq<u8> {
        self.raw@
    }

    /// The decoded item.
    pub closed spec fn item_value(&self) -> T {
        self.item
    }

    /// Pairs the item with its raw bytes.
    pub fn new(raw: Vec<u8>, item: T) -> (s: OciStruct<T>)
        ensures
            s.raw_bytes() == raw@,
            s.item_value() == item,
    {
        OciStruct { raw, item }
    }

    /// The raw bytes.
    pub fn raw(&self) -> (r: &[u8])
        ensures
            r@ == self.raw_bytes(),
    {
        self.raw.as_slice()
    }

    /// The decoded item.
    pub fn item(&self) -> (r: &T)
        ensures
            *r == self.item_value(),
    {
        &self.item
    }

    /// Gives up the item and keeps the raw bytes.
    pub fn into_raw(self) -> (r: Vec<u8>)
        ensures
            r@ == self.raw_bytes(),
    {
        self.raw
    }

    /// Gives up the raw bytes and keeps the item.
    pub fn into_item(self) -> (r: T)
        ensures
            r == self.item_value(),
    {
        self.item
    }

    /// Separates the item from its raw bytes.
    pub fn split(self) -> (r: (T, Vec<u8>))
        ensures
            r.0 == self.item_value(),
            r.1@ == self.raw_bytes(),
    {
        (self.item, self.raw)
    }

    /// Keeps the raw bytes and forgets the item, leaving no item of type `X`.
    pub fn erase<X: Clone + Debug>(self) -> (r: OciStruct<Option<X>>)
        ensures
            r.raw_bytes() == self.raw_bytes(),
            r.item_value() is None,
    {
        OciStruct::new(self.into_raw(), None)
    }
}

impl<T: Clone + Debug> From<OciStruct<T>> for OciStruct<Option<T>> {
    /// The same raw bytes with the item present.
    fn from(s: OciStruct<T>) -> (r: OciStruct<Option<T>>)
        ensures
            r.raw_bytes() == s.raw_bytes(),
            r.item_value() == Some(s.item_value()),
    {
        OciStruct { raw: s.raw, item: Some(s.item) }
    }
}

impl<T: Clone + Debug> vstd::std_specs::convert::FromSpecImpl<OciStruct<T>> for OciStruct<Option<T>> {
    open spec fn obeys_from_spec() -> bool {
        true
    }

    closed spec fn from_spec(s: OciStruct<T>) -> OciStruct<Option<T>> {
        OciStruct { raw: s.raw, item: Some(s.item) }
    }
}

} // verus!
