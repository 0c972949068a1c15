//! A complete query message: a header and the one question it announces.

use crate::error::EncodingError;
use crate::header::{DnsHeader, HEADER_LEN};
use crate::labels::lemma_name_wire_len;
use crate::name::Domain;
use crate::question::{Class, DnsQuestion, Type};
use crate::wire::Serialize;
use vstd::prelude::*;

verus! {

/// The flag bit that asks the resolver to resolve the name recursively.
pub const RECURSION_DESIRED: u16 = 0x0100;

/// The header of a recursive lookup with one question and identifier `id`.
pub open spec fn lookup_header(id: u16) -> DnsHeader {
    DnsHeader {
        id,
        flags: RECURSION_DESIRED,
        num_questions: 1,
        num_answers: 0,
        num_authorities: 0,
        num_additionals: 0,
    }
}

/// A query for one name.
///
/// The fields are private, and [`DnsQuery::new`] is the only way to make one
/// with a chosen identifier: every query announces exactly one question, asks
/// for recursion and nothing else, and is of class [`Class::In`].
pub struct DnsQuery<'a> {
    header: DnsHeader,
    question: DnsQuestion<'a>,
}

/// `fastrand::u16` over the full range `..`: a number drawn from the
/// thread-local generator. Nothing is claimed of the number.
#[verifier::external_body]
fn random_id() -> (id: u16) {
    fastrand::u16(..)
}

impl<'a> DnsQuery<'a> {
    #[verifier::type_invariant]
    spec fn conventional(&self) -> bool {
        &&& self.header == lookup_header(self.header.id)
        &&& self.question.class == Class::In
    }

    /// The header of this query.
    pub closed spec fn spec_header(&self) -> DnsHeader {
        self.header
    }

    /// The question of this query.
    pub closed spec fn spec_question(&self) -> DnsQuestion<'a> {
        self.question
    }

    /// A recursive lookup of `domain` for records of type `ty`, with
    /// transaction identifier `id`.
    pub fn new(id: u16, domain: &'a [u8], ty: Type) -> (q: DnsQuery<'a>)
        ensures
            q.spec_header() == lookup_header(id),
            q.spec_question() == (DnsQuestion { name: Domain(domain), ty, class: Class::In }),
    {
        DnsQuery {
            header: DnsHeader { id, flags: RECURSION_DESIRED, num_questions: 1, ..Default::default() },
            question: DnsQuestion { name: Domain(domain), ty, class: Class::In },
        }
    }

    /// A recursive lookup like [`DnsQuery::new`] makes, under a transaction
    /// identifier drawn at random.
    pub fn with_random_id(domain: &'a [u8], ty: Type) -> (q: DnsQuery<'a>)
        ensures
            q.spec_header() == lookup_header(q.spec_header().id),
            q.spec_question() == (DnsQuestion { name: Domain(domain), ty, class: Class::In }),
    {
        DnsQuery::new(random_id(), domain, ty)
    }

    /// The header; whatever the query, it is that of a recursive lookup with
    /// one question.
    #[verifier::when_used_as_spec(spec_header)]
    pub fn header(&self) -> (h: DnsHeader)
        ensures
            h == self.spec_header(),
            h == lookup_header(h.id),
    {
        proof {
            use_type_invariant(self);
        }
        self.header
    }

    /// The question; whatever the query, its class is [`Class::In`].
    #[verifier::when_used_as_spec(spec_question)]
    pub fn question(&self) -> (q: DnsQuestion<'a>)
        ensures
            q == self.spec_question(),
            q.class == Class::In,
    {
        proof {
            use_type_invariant(self);
        }
        self.question
    }

    /// An encoded query is as long as its parts: twelve bytes of header, the
    /// name with the two bytes that encoding adds to it, and four bytes of
    /// type and class. Nothing stands before, between or after them.
    pub proof fn lemma_wire_len(self)
        ensures
            self.wire().len() == HEADER_LEN + (self.question().name@.len() + 2) + 4,
    {
        self.header().lemma_round_trip();
        lemma_name_wire_len(self.question().name@);
    }
}

impl<'a> Serialize for DnsQuery<'a> {
    /// The header, immediately followed by the question.
    open spec fn wire(&self) -> Seq<u8> {
        self.spec_header().wire() + self.spec_question().wire()
    }

    /// A query can be encoded when its question can.
    open spec fn encodable(&self) -> bool {
        self.spec_question().encodable()
    }

    fn serialize(&self, dst: &mut Vec<u8>) -> (r: Result<(), EncodingError>) {
        if self.question.name.fits() {
            self.header.emit(dst);
            self.question.emit(dst);
            Ok(())
        } else {
            Err(EncodingError::LabelTooLong)
        }
    }
}

} // verus!
