use dns_query::{
    Class, DnsHeader, DnsQuery, DnsQuestion, Domain, EncodingError, Serialize, Type,
};

/// Cuts wire bytes at their length bytes until they run out.
fn decode_labels(mut bytes: &[u8]) -> Option<Vec<Vec<u8>>> {
    let mut labels = vec![];
    while let Some((&len, rest)) = bytes.split_first() {
        let len = usize::from(len);
        if rest.len() < len {
            return None;
        }
        labels.push(rest[..len].to_vec());
        bytes = &rest[len..];
    }
    Some(labels)
}

fn encode_name(name: &[u8]) -> Vec<u8> {
    let mut bytes = vec![];
    assert_eq!(Domain(name).serialize(&mut bytes), Ok(()));
    bytes
}

/// The labels of a name as the slice method of the standard library cuts
/// them, followed by the empty label that ends an encoded name.
fn expected_labels(name: &[u8]) -> Vec<Vec<u8>> {
    let mut labels: Vec<Vec<u8>> = name.split(|c| *c == b'.').map(|l| l.to_vec()).collect();
    labels.push(vec![]);
    labels
}

fn header_fields(bytes: &[u8]) -> [u16; 6] {
    let mut fields = [0u16; 6];
    for (i, field) in fields.iter_mut().enumerate() {
        *field = u16::from_be_bytes([bytes[2 * i], bytes[2 * i + 1]]);
    }
    fields
}

#[test]
fn decoding_a_name_gives_its_labels_and_the_terminator() {
    let long = vec![b'x'; 255];
    let names: [&[u8]; 9] = [
        b"example.com",
        b"google.com.br",
        b"localhost",
        b"",
        b".",
        b"a..b",
        b".leading",
        b"trailing.",
        &long,
    ];
    for name in names {
        let wire = encode_name(name);
        assert_eq!(decode_labels(&wire), Some(expected_labels(name)));
        assert_eq!(wire.len(), name.len() + 2);
        assert_eq!(wire.last(), Some(&0));
    }
}

#[test]
fn header_round_trip() {
    let cases: [[u16; 6]; 4] = [
        [0, 0, 0, 0, 0, 0],
        [0xFFFF, 0xFFFF, 0xFFFF, 0xFFFF, 0xFFFF, 0xFFFF],
        [0x1234, 0x0100, 1, 0, 0, 0],
        [0x00FF, 0xFF00, 0x8000, 0x0001, 0x7FFF, 0x0A0B],
    ];
    for f in cases {
        let header = DnsHeader {
            id: f[0],
            flags: f[1],
            num_questions: f[2],
            num_answers: f[3],
            num_authorities: f[4],
            num_additionals: f[5],
        };
        let mut bytes = vec![];
        assert_eq!(header.serialize(&mut bytes), Ok(()));
        assert_eq!(bytes.len(), 12);
        assert_eq!(header_fields(&bytes), f);
    }
}

#[test]
fn header_is_big_endian() {
    let header = DnsHeader {
        id: 0x0102,
        flags: 0x0304,
        num_questions: 0x0506,
        num_answers: 0x0708,
        num_authorities: 0x090A,
        num_additionals: 0x0B0C,
    };
    let mut bytes = vec![];
    assert_eq!(header.serialize(&mut bytes), Ok(()));
    assert_eq!(bytes, [1, 2, 3, 4, 5, 6, 7, 8, 9, 10, 11, 12]);
}

#[test]
fn default_header_is_all_zero() {
    let header = DnsHeader::default();
    assert_eq!(
        header,
        DnsHeader {
            id: 0,
            flags: 0,
            num_questions: 0,
            num_answers: 0,
            num_authorities: 0,
            num_additionals: 0,
        }
    );
    let mut bytes = vec![];
    assert_eq!(header.serialize(&mut bytes), Ok(()));
    assert_eq!(bytes, [0u8; 12]);
}

#[test]
fn new_query_has_the_conventional_header() {
    for id in [0u16, 1, 0x00FF, 0x0100, 0xABCD, 0xFFFF] {
        for domain in [&b"example.com"[..], b"", b"a.b.c.d"] {
            let query = DnsQuery::new(id, domain, Type::A);
            let header = query.header();
            assert_eq!(header.id, id);
            assert_eq!(header.flags, 0x0100);
            assert_eq!(header.num_questions, 1);
            assert_eq!(header.num_answers, 0);
            assert_eq!(header.num_authorities, 0);
            assert_eq!(header.num_additionals, 0);
            let question = query.question();
            assert_eq!(question.name.0, domain);
            assert_eq!(question.ty, Type::A);
            assert_eq!(question.class, Class::In);
        }
    }
}

#[test]
fn query_length_is_the_sum_of_its_parts() {
    for domain in [&b"example.com"[..], b"", b"a", b"a.b", b"www.rust-lang.org"] {
        let mut bytes = vec![];
        assert_eq!(DnsQuery::new(7, domain, Type::A).serialize(&mut bytes), Ok(()));
        assert_eq!(bytes.len(), 12 + (domain.len() + 2) + 4);
    }
}

#[test]
fn type_and_class_codes() {
    assert_eq!(Type::A.code(), 1);
    assert_eq!(Class::In.code(), 1);
}

#[test]
fn empty_name_is_one_empty_label() {
    assert_eq!(encode_name(b""), [0, 0]);
}

#[test]
fn dots_at_the_edges_give_empty_labels() {
    assert_eq!(encode_name(b"."), [0, 0, 0]);
    assert_eq!(encode_name(b".a"), [0, 1, b'a', 0]);
    assert_eq!(encode_name(b"a."), [1, b'a', 0, 0]);
    assert_eq!(encode_name(b"a..b"), [1, b'a', 0, 1, b'b', 0]);
}

#[test]
fn label_of_255_bytes_is_accepted() {
    let name = vec![b'a'; 255];
    assert!(Domain(&name).fits());
    let wire = encode_name(&name);
    assert_eq!(wire.len(), 257);
    assert_eq!(wire[0], 255);
    assert_eq!(&wire[1..256], &name[..]);
    assert_eq!(wire[256], 0);
}

#[test]
fn label_of_256_bytes_is_refused() {
    let name = vec![b'a'; 256];
    assert!(!Domain(&name).fits());
    let mut bytes = vec![];
    assert_eq!(Domain(&name).serialize(&mut bytes), Err(EncodingError::LabelTooLong));
    assert!(bytes.is_empty());
}

#[test]
fn a_long_label_anywhere_is_refused_and_nothing_is_written() {
    let long = vec![b'z'; 300];
    let mut first = long.clone();
    first.extend_from_slice(b".com");
    let mut middle = b"www.".to_vec();
    middle.extend_from_slice(&long);
    middle.extend_from_slice(b".com");
    let mut last = b"www.example.".to_vec();
    last.extend_from_slice(&long);

    for name in [&first, &middle, &last] {
        assert!(!Domain(name).fits());

        let mut bytes = b"kept".to_vec();
        assert_eq!(Domain(name).serialize(&mut bytes), Err(EncodingError::LabelTooLong));
        assert_eq!(bytes, b"kept");

        let question = DnsQuestion { name: Domain(name), ty: Type::A, class: Class::In };
        assert_eq!(question.serialize(&mut bytes), Err(EncodingError::LabelTooLong));
        assert_eq!(bytes, b"kept");

        let query = DnsQuery::new(1, name, Type::A);
        assert_eq!(query.serialize(&mut bytes), Err(EncodingError::LabelTooLong));
        assert_eq!(bytes, b"kept");
    }
}

#[test]
fn many_short_labels_fit_whatever_the_length_of_the_name() {
    let mut name = vec![];
    for _ in 0..100 {
        name.extend_from_slice(b"abcdefghij.");
    }
    assert!(name.len() > 255);
    assert!(Domain(&name).fits());
    let wire = encode_name(&name);
    assert_eq!(decode_labels(&wire), Some(expected_labels(&name)));
}

#[test]
fn serialize_appends_to_what_is_there() {
    let mut bytes = vec![0xEE, 0xFF];
    assert_eq!(Domain(b"a.bc").serialize(&mut bytes), Ok(()));
    assert_eq!(bytes, [0xEE, 0xFF, 1, b'a', 2, b'b', b'c', 0]);

    let header = DnsHeader {
        id: 0x0102,
        flags: 0,
        num_questions: 0,
        num_answers: 0,
        num_authorities: 0,
        num_additionals: 0x0304,
    };
    assert_eq!(header.serialize(&mut bytes), Ok(()));
    assert_eq!(
        bytes,
        [0xEE, 0xFF, 1, b'a', 2, b'b', b'c', 0, 1, 2, 0, 0, 0, 0, 0, 0, 0, 0, 3, 4]
    );
}

#[test]
fn random_id_changes_nothing_but_the_id() {
    let query = DnsQuery::with_random_id(b"example.com", Type::A);
    let header = query.header();
    assert_eq!(header.flags, 0x0100);
    assert_eq!(header.num_questions, 1);
    assert_eq!(header.num_answers, 0);
    assert_eq!(header.num_authorities, 0);
    assert_eq!(header.num_additionals, 0);
    assert_eq!(query.question().name.0, b"example.com");
    assert_eq!(query.question().ty, Type::A);
    assert_eq!(query.question().class, Class::In);

    let mut bytes = vec![];
    assert_eq!(query.serialize(&mut bytes), Ok(()));
    assert_eq!(bytes.len(), 29);
    assert_eq!(&bytes[..2], &header.id.to_be_bytes()[..]);
    assert_eq!(
        &bytes[2..],
        &b"\x01\x00\x00\x01\x00\x00\x00\x00\x00\x00\x07example\x03com\x00\x00\x01\x00\x01"[..]
    );
}
