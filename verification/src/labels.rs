//! The mathematical model of a domain name: how a written name falls into
//! labels, and how labels are laid out on the wire.

use vstd::prelude::*;

verus! {

/// The byte that separates the labels of a written name: an ASCII dot.
pub const SEPARATOR: u8 = 0x2e;

/// The longest label whose length still fits the byte that precedes it.
pub const MAX_LABEL_LEN: usize = 255;

/// The labels of a dot-separated name, in order.
///
/// A name without a dot is one label; every dot ends a label and starts the
/// next, so a leading or trailing dot, or two dots in a row, give an empty
/// label. [`lemma_labels_join`] and [`lemma_join_labels`] show that this is
/// the one way to cut the name at its dots.
pub open spec fn labels(name: Seq<u8>) -> Seq<Seq<u8>>
    decreases name.len(),
{
    if name.len() == 0 {
        seq![Seq::<u8>::empty()]
    } else {
        let before = labels(name.drop_last());
        if name.last() == SEPARATOR {
            before.push(Seq::<u8>::empty())
        } else {
            before.drop_last().push(before.last().push(name.last()))
        }
    }
}

/// Whether every label of `name` is short enough to be length-prefixed.
pub open spec fn labels_fit(name: Seq<u8>) -> bool {
    forall|k: int| 0 <= k < labels(name).len() ==> (#[trigger] labels(name)[k]).len() <= MAX_LABEL_LEN
}

/// Each label preceded by its length as one byte, one after the other.
pub open spec fn encode_labels(ls: Seq<Seq<u8>>) -> Seq<u8>
    decreases ls.len(),
{
    if ls.len() == 0 {
        Seq::<u8>::empty()
    } else {
        encode_labels(ls.drop_last()).push(ls.last().len() as u8) + ls.last()
    }
}

/// The wire form of a name: its length-prefixed labels, then a zero byte.
pub open spec fn name_wire(name: Seq<u8>) -> Seq<u8> {
    encode_labels(labels(name)).push(0u8)
}

/// What one more byte at the end of a name does to its labels.
pub proof fn lemma_labels_push(name: Seq<u8>, byte: u8)
    ensures
        labels(name).len() >= 1,
        byte == SEPARATOR ==> labels(name.push(byte)) == labels(name).push(Seq::<u8>::empty()),
        byte != SEPARATOR ==> labels(name.push(byte)) == labels(name).drop_last().push(
            labels(name).last().push(byte),
        ),
    decreases name.len(),
{
    if name.len() > 0 {
        lemma_labels_push(name.drop_last(), name.last());
    }
    assert(name.push(byte).drop_last() =~= name);
}

/// A name whose labels fit remains so when cut short at any point.
pub proof fn lemma_fit_prefix(name: Seq<u8>, n: int)
    requires
        0 <= n <= name.len(),
        labels_fit(name),
    ensures
        labels_fit(name.take(n)),
    decreases name.len() - n,
{
    if n < name.len() {
        lemma_fit_prefix(name, n + 1);
        let shorter = name.take(n);
        let longer = name.take(n + 1);
        assert(longer =~= shorter.push(name[n]));
        lemma_labels_push(shorter, name[n]);
        assert forall|k: int| 0 <= k < labels(shorter).len() implies (#[trigger] labels(
            shorter,
        )[k]).len() <= MAX_LABEL_LEN by {
            if name[n] == SEPARATOR {
                assert(labels(longer)[k] == labels(shorter)[k]);
            } else if k < labels(shorter).len() - 1 {
                assert(labels(longer)[k] == labels(shorter)[k]);
            } else {
                assert(labels(longer)[k] == labels(shorter)[k].push(name[n]));
            }
        }
    } else {
        assert(name.take(n) =~= name);
    }
}


/// The labels written one after the other with a dot between neighbours.
pub open spec fn join(ls: Seq<Seq<u8>>) -> Seq<u8>
    decreases ls.len(),
{
    if ls.len() == 0 {
        Seq::<u8>::empty()
    } else if ls.len() == 1 {
        ls[0]
    } else {
        join(ls.drop_last()).push(SEPARATOR) + ls.last()
    }
}

/// Whether no label holds a dot.
pub open spec fn dot_free(ls: Seq<Seq<u8>>) -> bool {
    forall|k: int, j: int|
        0 <= k < ls.len() && 0 <= j < ls[k].len() ==> (#[trigger] ls[k][j]) != SEPARATOR
}

/// What a wire-encoded run of labels reads as when it is cut at its length
/// bytes until the bytes run out; `None` when a length byte promises more
/// bytes than follow it.
pub open spec fn decode_labels(bytes: Seq<u8>) -> Option<Seq<Seq<u8>>>
    decreases bytes.len(),
{
    if bytes.len() == 0 {
        Some(Seq::<Seq<u8>>::empty())
    } else if bytes.len() < 1 + bytes[0] {
        None
    } else {
        match decode_labels(bytes.skip(1 + bytes[0])) {
            Some(rest) => Some(seq![bytes.subrange(1, 1 + bytes[0])] + rest),
            None => None,
        }
    }
}

/// Cutting a name at its dots loses nothing: there is at least one label, no
/// label holds a dot, and the labels joined by dots are the name again.
pub proof fn lemma_labels_join(name: Seq<u8>)
    ensures
        labels(name).len() >= 1,
        dot_free(labels(name)),
        join(labels(name)) == name,
    decreases name.len(),
{
    if name.len() == 0 {
        assert(join(labels(name)) =~= name);
    } else {
        let front = name.drop_last();
        let before = labels(front);
        lemma_labels_join(front);
        if name.last() == SEPARATOR {
            assert(labels(name).drop_last() =~= before);
            assert(join(labels(name)) =~= front.push(SEPARATOR));
        } else {
            let grown = before.last().push(name.last());
            if before.len() == 1 {
                assert(before.last() == join(before));
                assert(grown =~= front.push(name.last()));
            } else {
                assert(labels(name).drop_last() =~= before.drop_last());
                assert(join(labels(name)) =~= join(before).push(name.last()));
            }
            assert forall|k: int, j: int|
                0 <= k < labels(name).len() && 0 <= j < labels(name)[k].len() implies (
            #[trigger] labels(name)[k][j]) != SEPARATOR by {
                if k < before.len() - 1 {
                    assert(labels(name)[k][j] == before[k][j]);
                } else if j < before.last().len() {
                    assert(labels(name)[k][j] == before[k][j]);
                }
            }
        }
        assert(front.push(name.last()) =~= name);
    }
}

/// The labels of a name that is followed by dot-free bytes: the bytes extend
/// the last label.
proof fn lemma_labels_extend(name: Seq<u8>, more: Seq<u8>)
    requires
        forall|j: int| 0 <= j < more.len() ==> more[j] != SEPARATOR,
    ensures
        labels(name).len() >= 1,
        labels(name + more) == labels(name).drop_last().push(labels(name).last() + more),
    decreases more.len(),
{
    lemma_labels_push(name, 0);
    if more.len() == 0 {
        assert(name + more =~= name);
        assert(labels(name).last() + more =~= labels(name).last());
        assert(labels(name).drop_last().push(labels(name).last()) =~= labels(name));
    } else {
        let shorter = more.drop_last();
        lemma_labels_extend(name, shorter);
        lemma_labels_push(name + shorter, more.last());
        assert((name + shorter).push(more.last()) =~= name + more);
        assert(labels(name + shorter).drop_last() =~= labels(name).drop_last());
        assert((labels(name).last() + shorter).push(more.last()) =~= labels(name).last() + more);
    }
}

/// Joining is undone by cutting: dot-free labels, at least one of them, are
/// the labels of the name they are joined to.
pub proof fn lemma_join_labels(ls: Seq<Seq<u8>>)
    requires
        ls.len() >= 1,
        dot_free(ls),
    ensures
        labels(join(ls)) == ls,
    decreases ls.len(),
{
    let e = Seq::<u8>::empty();
    assert forall|j: int| 0 <= j < ls.last().len() implies ls.last()[j] != SEPARATOR by {
        assert(ls[ls.len() - 1][j] != SEPARATOR);
    }
    if ls.len() == 1 {
        lemma_labels_extend(e, ls[0]);
        assert(e + ls[0] =~= ls[0]);
        assert(labels(e).drop_last().push(labels(e).last() + ls[0]) =~= ls);
    } else {
        let init = ls.drop_last();
        assert forall|k: int, j: int|
            0 <= k < init.len() && 0 <= j < init[k].len() implies (#[trigger] init[k][j])
            != SEPARATOR by {
            assert(ls[k][j] != SEPARATOR);
        }
        lemma_join_labels(init);
        let head = join(init).push(SEPARATOR);
        lemma_labels_push(join(init), SEPARATOR);
        lemma_labels_extend(head, ls.last());
        assert(labels(head).drop_last() =~= init);
        assert(e + ls.last() =~= ls.last());
        assert(init.push(ls.last()) =~= ls);
    }
}

/// A name takes two bytes more on the wire than it has as written: every dot
/// gives way to a length byte, one length byte leads, and a zero byte ends.
pub proof fn lemma_name_wire_len(name: Seq<u8>)
    ensures
        name_wire(name).len() == name.len() + 2,
    decreases name.len(),
{
    if name.len() == 0 {
        assert(labels(name).drop_last() =~= Seq::<Seq<u8>>::empty());
        reveal_with_fuel(encode_labels, 2);
    } else {
        let front = name.drop_last();
        let before = labels(front);
        lemma_name_wire_len(front);
        lemma_labels_push(front, name.last());
        assert(front.push(name.last()) =~= name);
        if name.last() == SEPARATOR {
            assert(labels(name).drop_last() =~= before);
        } else {
            assert(labels(name).drop_last() =~= before.drop_last());
        }
    }
}

/// Encoded labels in front of other bytes decode to the labels, followed by
/// what the other bytes decode to.
proof fn lemma_decode_encoded(ls: Seq<Seq<u8>>, tail: Seq<u8>)
    requires
        forall|k: int| 0 <= k < ls.len() ==> (#[trigger] ls[k]).len() <= MAX_LABEL_LEN,
        decode_labels(tail) is Some,
    ensures
        decode_labels(encode_labels(ls) + tail) == Some(ls + decode_labels(tail)->Some_0),
    decreases ls.len(),
{
    let decoded = decode_labels(tail)->Some_0;
    if ls.len() == 0 {
        assert(encode_labels(ls) + tail =~= tail);
        assert(ls + decoded =~= decoded);
    } else {
        let init = ls.drop_last();
        let label = ls.last();
        let framed = seq![label.len() as u8] + label + tail;
        assert(encode_labels(ls) + tail =~= encode_labels(init) + framed);
        assert(framed[0] == label.len());
        assert(framed.subrange(1, 1 + framed[0]) =~= label);
        assert(framed.skip(1 + framed[0]) =~= tail);
        assert(decode_labels(framed) == Some(seq![label] + decoded));
        lemma_decode_encoded(init, framed);
        assert(init + (seq![label] + decoded) =~= ls + decoded);
    }
}

/// Decoding the wire form of a name whose labels fit gives the labels of the
/// name, in order, and after them the zero-length label that ends it.
pub proof fn lemma_decode_name_wire(name: Seq<u8>)
    requires
        labels_fit(name),
    ensures
        decode_labels(name_wire(name)) == Some(labels(name).push(Seq::<u8>::empty())),
{
    let e = Seq::<u8>::empty();
    let end = seq![0u8];
    assert(end.skip(1) =~= e);
    assert(end.subrange(1, 1) =~= e);
    assert(decode_labels(e) == Some(Seq::<Seq<u8>>::empty()));
    assert(seq![e] + Seq::<Seq<u8>>::empty() =~= seq![e]);
    assert(decode_labels(end) == Some(seq![e]));
    lemma_decode_encoded(labels(name), end);
    assert(name_wire(name) =~= encode_labels(labels(name)) + end);
    assert(labels(name) + seq![e] =~= labels(name).push(e));
}

} // verus!
