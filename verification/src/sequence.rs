//! The one-pass sequence protocol the samplers consume, and an adapter that
//! turns a vector into such a sequence.

use vstd::prelude::*;

verus! {

/// A one-pass sequence of elements. `remaining()` is the mathematical view
/// of the elements not yet produced, front first, in the order they will
/// come out.
///
/// The contract of `size_hint` obliges every implementer to report a lower
/// bound that never overstates the true remaining count, and an upper bound
/// (when one is reported at all) that never understates it.
pub trait Sequence<T>: Sized {
    /// The elements not yet produced, front first.
    spec fn remaining(&self) -> Seq<T>;

    /// Produces the next element, or nothing once the sequence is exhausted.
    fn next(&mut self) -> (r: Option<T>)
        ensures
            old(self).remaining().len() == 0 ==> r is None && final(self).remaining()
                == old(self).remaining(),
            old(self).remaining().len() > 0 ==> r == Some(old(self).remaining()[0])
                && final(self).remaining() == old(self).remaining().drop_first(),
    ;

    /// Discards the next `k` elements and produces the one after them, or
    /// nothing (leaving the sequence exhausted) when fewer than `k + 1`
    /// elements remain.
    fn nth(&mut self, k: usize) -> (r: Option<T>)
        ensures
            k < old(self).remaining().len() ==> r == Some(old(self).remaining()[k as int])
                && final(self).remaining() == old(self).remaining().skip(k as int + 1),
            k >= old(self).remaining().len() ==> r is None && final(self).remaining().len() == 0,
    ;

    /// A lower bound and an optional upper bound on how many elements remain.
    fn size_hint(&self) -> (h: (usize, Option<usize>))
        ensures
            h.0 <= self.remaining().len(),
            h.1 matches Some(u) ==> self.remaining().len() <= u,
    ;
}

/// How a `VecSequence` reports its remaining length.
#[derive(Clone, Copy)]
pub enum Hint {
    /// Lower and upper bound are both the true remaining count.
    Exact,
    /// The lower bound is the true remaining count capped at the given value;
    /// no upper bound is reported. A cap of zero makes the length fully
    /// unknown, one element at a time.
    Capped(usize),
}

/// A vector played back as a one-pass sequence, reporting its length as the
/// chosen `Hint` prescribes.
pub struct VecSequence<T> {
    items: Vec<T>,
    hint: Hint,
}

impl<T> VecSequence<T> {
    /// Wraps a vector; its elements will be produced front first.
    pub fn new(items: Vec<T>, hint: Hint) -> (r: VecSequence<T>)
        ensures
            r.remaining() == items@,
    {
        VecSequence { items, hint }
    }
}

impl<T> Sequence<T> for VecSequence<T> {
    closed spec fn remaining(&self) -> Seq<T> {
        self.items@
    }

    fn next(&mut self) -> (r: Option<T>)
        ensures
            old(self).remaining().len() == 0 ==> r is None && final(self).remaining()
                == old(self).remaining(),
            old(self).remaining().len() > 0 ==> r == Some(old(self).remaining()[0])
                && final(self).remaining() == old(self).remaining().drop_first(),
    {
        if self.items.len() == 0 {
            None
        } else {
            Some(self.items.remove(0))
        }
    }

    fn nth(&mut self, k: usize) -> (r: Option<T>)
        ensures
            k < old(self).remaining().len() ==> r == Some(old(self).remaining()[k as int])
                && final(self).remaining() == old(self).remaining().skip(k as int + 1),
            k >= old(self).remaining().len() ==> r is None && final(self).remaining().len() == 0,
    {
        if k >= self.items.len() {
            self.items.clear();
            None
        } else {
            let tail = self.items.split_off(k + 1);
            let r = self.items.pop();
            self.items = tail;
            r
        }
    }

    fn size_hint(&self) -> (h: (usize, Option<usize>))
        ensures
            h.0 <= self.remaining().len(),
            h.1 matches Some(u) ==> self.remaining().len() <= u,
    {
        let len = self.items.len();
        match self.hint {
            Hint::Exact => (len, Some(len)),
            Hint::Capped(c) => (if len < c { len } else { c }, None),
        }
    }
}

} // verus!
