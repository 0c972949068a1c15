//! The fixed twelve-byte header of a message.

use crate::error::EncodingError;
use crate::sink::{be_bytes, be_value, lemma_be_round_trip, put_u16};
use crate::wire::Serialize;
use vstd::prelude::*;

verus! {

/// The six 16-bit fields that open every DNS message.
#[derive(Clone, Copy, Debug, PartialEq, Eq, Structural)]
pub struct DnsHeader {
    /// Transaction identifier, echoed by the resolver in its reply.
    pub id: u16,
    /// Flag bits; bit 8 asks the resolver to recurse.
    pub flags: u16,
    /// Number of entries in the question section.
    pub num_questions: u16,
    /// Number of records in the answer section.
    pub num_answers: u16,
    /// Number of records in the authority section.
    pub num_authorities: u16,
    /// Number of records in the additional section.
    pub num_additionals: u16,
}

/// Length in bytes of an encoded header.
pub const HEADER_LEN: usize = 12;

impl DnsHeader {
    /// The header that six consecutive big-endian 16-bit fields stand for.
    pub open spec fn from_wire(bytes: Seq<u8>) -> DnsHeader
        recommends
            bytes.len() == HEADER_LEN,
    {
        DnsHeader {
            id: be_value(bytes.subrange(0, 2)),
            flags: be_value(bytes.subrange(2, 4)),
            num_questions: be_value(bytes.subrange(4, 6)),
            num_answers: be_value(bytes.subrange(6, 8)),
            num_authorities: be_value(bytes.subrange(8, 10)),
            num_additionals: be_value(bytes.subrange(10, 12)),
        }
    }

    /// A header takes exactly twelve bytes, and reading those bytes back as
    /// six big-endian 16-bit fields gives the header again.
    pub proof fn lemma_round_trip(self)
        ensures
            self.wire().len() == HEADER_LEN,
            DnsHeader::from_wire(self.wire()) == self,
    {
        let w = self.wire();
        lemma_be_round_trip(self.id);
        lemma_be_round_trip(self.flags);
        lemma_be_round_trip(self.num_questions);
        lemma_be_round_trip(self.num_answers);
        lemma_be_round_trip(self.num_authorities);
        lemma_be_round_trip(self.num_additionals);
        assert(w.subrange(0, 2) =~= be_bytes(self.id));
        assert(w.subrange(2, 4) =~= be_bytes(self.flags));
        assert(w.subrange(4, 6) =~= be_bytes(self.num_questions));
        assert(w.subrange(6, 8) =~= be_bytes(self.num_answers));
        assert(w.subrange(8, 10) =~= be_bytes(self.num_authorities));
        assert(w.subrange(10, 12) =~= be_bytes(self.num_additionals));
    }
}

impl DnsHeader {
    /// Appends the twelve bytes of the header.
    pub(crate) fn emit(&self, dst: &mut Vec<u8>)
        ensures
            final(dst)@ == old(dst)@ + self.wire(),
    {
        put_u16(dst, self.id);
        put_u16(dst, self.flags);
        put_u16(dst, self.num_questions);
        put_u16(dst, self.num_answers);
        put_u16(dst, self.num_authorities);
        put_u16(dst, self.num_additionals);
    }
}

impl Default for DnsHeader {
    /// The header with every field zero.
    fn default() -> (h: DnsHeader)
        ensures
            h == (DnsHeader {
                id: 0,
                flags: 0,
                num_questions: 0,
                num_answers: 0,
                num_authorities: 0,
                num_additionals: 0,
            }),
    {
        DnsHeader {
            id: 0,
            flags: 0,
            num_questions: 0,
            num_answers: 0,
            num_authorities: 0,
            num_additionals: 0,
        }
    }
}

impl Serialize for DnsHeader {
    /// The six fields in their fixed order, each as two big-endian bytes.
    open spec fn wire(&self) -> Seq<u8> {
        be_bytes(self.id) + be_bytes(self.flags) + be_bytes(self.num_questions) + be_bytes(
            self.num_answers,
        ) + be_bytes(self.num_authorities) + be_bytes(self.num_additionals)
    }

    /// Every header can be encoded: the fields are taken as given.
    open spec fn encodable(&self) -> bool {
        true
    }

    fn serialize(&self, dst: &mut Vec<u8>) -> (r: Result<(), EncodingError>) {
        self.emit(dst);
        Ok(())
    }
}

} // verus!
