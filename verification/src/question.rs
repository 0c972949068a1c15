//! One entry of the question section: a name, a record type and a class.

use crate::error::EncodingError;
use crate::labels::{labels_fit, name_wire};
use crate::name::Domain;
use crate::sink::{be_bytes, put_u16};
use crate::wire::Serialize;
use vstd::prelude::*;

verus! {

/// The kind of record asked for (RFC 1035, section 3.2.2).
#[derive(Clone, Copy, Debug, PartialEq, Eq, Structural)]
pub enum Type {
    /// A host address.
    A,
}

impl Type {
    /// The number that stands for this record type on the wire.
    pub open spec fn spec_code(self) -> u16 {
        match self {
            Type::A => 1,
        }
    }

    /// The number that stands for this record type on the wire.
    #[verifier::when_used_as_spec(spec_code)]
    pub fn code(self) -> (c: u16)
        ensures
            c == self.spec_code(),
    {
        match self {
            Type::A => 1,
        }
    }
}

/// The class of network asked about (RFC 1035, section 3.2.4).
#[derive(Clone, Copy, Debug, PartialEq, Eq, Structural)]
pub enum Class {
    /// The Internet.
    In,
}

impl Class {
    /// The number that stands for this class on the wire.
    pub open spec fn spec_code(self) -> u16 {
        match self {
            Class::In => 1,
        }
    }

    /// The number that stands for this class on the wire.
    #[verifier::when_used_as_spec(spec_code)]
    pub fn code(self) -> (c: u16)
        ensures
            c == self.spec_code(),
    {
        match self {
            Class::In => 1,
        }
    }
}

/// A question: which records of which class are wanted for which name.
#[derive(Clone, Copy, Debug)]
pub struct DnsQuestion<'a> {
    /// The name asked about.
    pub name: Domain<'a>,
    /// The record type asked for.
    pub ty: Type,
    /// The class asked about.
    pub class: Class,
}

impl<'a> DnsQuestion<'a> {
    /// Appends the wire form of a question whose name can be encoded.
    pub(crate) fn emit(&self, dst: &mut Vec<u8>)
        requires
            self.encodable(),
        ensures
            final(dst)@ == old(dst)@ + self.wire(),
    {
        self.name.emit(dst);
        put_u16(dst, self.ty.code());
        put_u16(dst, self.class.code());
    }
}

impl<'a> Serialize for DnsQuestion<'a> {
    /// The encoded name, then the type code and the class code, each as two
    /// big-endian bytes.
    open spec fn wire(&self) -> Seq<u8> {
        name_wire(self.name@) + be_bytes(self.ty.code()) + be_bytes(self.class.code())
    }

    /// A question can be encoded when its name can.
    open spec fn encodable(&self) -> bool {
        labels_fit(self.name@)
    }

    fn serialize(&self, dst: &mut Vec<u8>) -> (r: Result<(), EncodingError>) {
        if self.name.fits() {
            self.emit(dst);
            Ok(())
        } else {
            Err(EncodingError::LabelTooLong)
        }
    }
}

} // verus!
