//! Domain names as the caller writes them, and their encoder.

use crate::error::EncodingError;
use crate::labels::{
    encode_labels, labels, labels_fit, lemma_fit_prefix, lemma_labels_push, name_wire,
    MAX_LABEL_LEN, SEPARATOR,
};
use crate::sink::{put_slice, put_u8};
use crate::wire::Serialize;
use vstd::prelude::*;
use vstd::slice::slice_subrange;

verus! {

/// A borrowed, dot-separated domain name such as `example.com`.
#[derive(Clone, Copy, Debug)]
pub struct Domain<'a>(pub &'a [u8]);

impl<'a> View for Domain<'a> {
    type V = Seq<u8>;

    /// The bytes of the name as written, dots included.
    open spec fn view(&self) -> Seq<u8> {
        self.0@
    }
}

impl<'a> Domain<'a> {
    /// Tells whether every label of the name is at most 255 bytes long.
    pub fn fits(&self) -> (ok: bool)
        ensures
            ok == labels_fit(self@),
    {
        let name = self.0;
        let n = name.len();
        let mut run: usize = 0;
        let mut i: usize = 0;
        while i < n
            invariant
                name@ == self@,
                n == name@.len(),
                i <= n,
                run <= MAX_LABEL_LEN,
                labels(name@.take(i as int)).len() >= 1,
                labels(name@.take(i as int)).last().len() == run,
                labels_fit(name@.take(i as int)),
            decreases n - i,
        {
            let ghost seen = name@.take(i as int);
            let ghost next = name@.take(i + 1);
            proof {
                assert(next =~= seen.push(name@[i as int]));
                lemma_labels_push(seen, name@[i as int]);
            }
            if name[i] == SEPARATOR {
                run = 0;
            } else if run == MAX_LABEL_LEN {
                proof {
                    assert(labels(next).last().len() > MAX_LABEL_LEN);
                    if labels_fit(name@) {
                        lemma_fit_prefix(name@, i + 1);
                        assert(labels(next)[labels(next).len() - 1].len() <= MAX_LABEL_LEN);
                    }
                }
                return false;
            } else {
                run = run + 1;
            }
            i = i + 1;
        }
        proof {
            assert(name@.take(n as int) =~= name@);
        }
        true
    }

    /// Appends the wire form of a name whose labels fit.
    pub(crate) fn emit(&self, dst: &mut Vec<u8>)
        requires
            labels_fit(self@),
        ensures
            final(dst)@ == old(dst)@ + name_wire(self@),
    {
        let name = self.0;
        let n = name.len();
        let mut start: usize = 0;
        let mut i: usize = 0;
        while i < n
            invariant
                n == name@.len(),
                start <= i <= n,
                labels_fit(name@),
                labels(name@.take(i as int)).len() >= 1,
                labels(name@.take(i as int)).last() == name@.subrange(start as int, i as int),
                dst@ == old(dst)@ + encode_labels(labels(name@.take(i as int)).drop_last()),
            decreases n - i,
        {
            let ghost seen = name@.take(i as int);
            let ghost next = name@.take(i + 1);
            proof {
                assert(next =~= seen.push(name@[i as int]));
                lemma_labels_push(seen, name@[i as int]);
                lemma_fit_prefix(name@, i as int);
            }
            if name[i] == SEPARATOR {
                let label = slice_subrange(name, start, i);
                assert(label@.len() <= MAX_LABEL_LEN) by {
                    assert(labels(seen)[labels(seen).len() - 1].len() <= MAX_LABEL_LEN);
                }
                put_u8(dst, label.len() as u8);
                put_slice(dst, label);
                start = i + 1;
                proof {
                    assert(labels(next).drop_last() =~= labels(seen));
                    assert(labels(seen).drop_last().push(labels(seen).last()) =~= labels(seen));
                    assert(name@.subrange(start as int, i + 1) =~= Seq::<u8>::empty());
                }
            } else {
                proof {
                    assert(labels(next).drop_last() =~= labels(seen).drop_last());
                    assert(name@.subrange(start as int, i + 1) =~= name@.subrange(
                        start as int,
                        i as int,
                    ).push(name@[i as int]));
                }
            }
            i = i + 1;
        }
        let label = slice_subrange(name, start, n);
        proof {
            assert(name@.take(n as int) =~= name@);
            assert(labels(name@)[labels(name@).len() - 1].len() <= MAX_LABEL_LEN);
        }
        put_u8(dst, label.len() as u8);
        put_slice(dst, label);
        put_u8(dst, 0);
    }
}

impl<'a> Serialize for Domain<'a> {
    /// The length-prefixed labels of the name, then the zero byte that ends it.
    open spec fn wire(&self) -> Seq<u8> {
        name_wire(self@)
    }

    /// A name can be encoded when none of its labels is longer than 255 bytes.
    open spec fn encodable(&self) -> bool {
        labels_fit(self@)
    }

    fn serialize(&self, dst: &mut Vec<u8>) -> (r: Result<(), EncodingError>) {
        if self.fits() {
            self.emit(dst);
            Ok(())
        } else {
            Err(EncodingError::LabelTooLong)
        }
    }
}

} // verus!
