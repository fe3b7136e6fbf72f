//! The three string kinds of the wire format. They hold the same bytes and
//! differ only in the type they are written as.
use vstd::prelude::*;

verus! {

/// A general string (`s`).
#[derive(Clone, Copy, Debug, PartialEq, Eq)]
pub struct String<'a> {
    pub bytes: &'a [u8],
}

/// An object path (`o`).
#[derive(Clone, Copy, Debug, PartialEq, Eq)]
pub struct ObjectPath<'a> {
    pub bytes: &'a [u8],
}

/// A signature held as a value (`g`).
#[derive(Clone, Copy, Debug, PartialEq, Eq)]
pub struct Signature<'a> {
    pub bytes: &'a [u8],
}

impl<'a> View for String<'a> {
    type V = Seq<u8>;

    open spec fn view(&self) -> Seq<u8> {
        self.bytes@
    }
}

impl<'a> View for ObjectPath<'a> {
    type V = Seq<u8>;

    open spec fn view(&self) -> Seq<u8> {
        self.bytes@
    }
}

impl<'a> View for Signature<'a> {
    type V = Seq<u8>;

    open spec fn view(&self) -> Seq<u8> {
        self.bytes@
    }
}

impl<'a> String<'a> {
    pub fn from_bytes(bytes: &'a [u8]) -> (r: Self)
        ensures
            r@ == bytes@,
    {
        String { bytes }
    }

    pub fn as_bytes(&self) -> (r: &'a [u8])
        ensures
            r@ == self@,
    {
        self.bytes
    }
}

impl<'a> ObjectPath<'a> {
    pub fn from_bytes(bytes: &'a [u8]) -> (r: Self)
        ensures
            r@ == bytes@,
    {
        ObjectPath { bytes }
    }

    pub fn as_bytes(&self) -> (r: &'a [u8])
        ensures
            r@ == self@,
    {
        self.bytes
    }
}

impl<'a> Signature<'a> {
    pub fn from_bytes(bytes: &'a [u8]) -> (r: Self)
        ensures
            r@ == bytes@,
    {
        Signature { bytes }
    }

    pub fn as_bytes(&self) -> (r: &'a [u8])
        ensures
            r@ == self@,
    {
        self.bytes
    }
}

} // verus!
