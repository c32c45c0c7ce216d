//! Reservoir samplers over a one-pass sequence: one uniformly chosen
//! element, or a reservoir of up to `n` of them.

use vstd::prelude::*;

use crate::rng::rand_index;
use crate::sequence::Sequence;

verus! {

/// Holds when `idx` names, for every slot of `out`, the distinct position of
/// `src` that the slot's element was taken from.
pub open spec fn selection_indices<T>(idx: Seq<int>, out: Seq<T>, src: Seq<T>) -> bool {
    &&& idx.len() == out.len()
    &&& (forall|k: int|
        0 <= k < idx.len() ==> 0 <= #[trigger] idx[k] < src.len() && out[k] == src[idx[k]])
    &&& (forall|k1: int, k2: int| 0 <= k1 < k2 < idx.len() ==> idx[k1] != idx[k2])
}

/// Holds when every slot of `out` carries an element of `src`, each slot
/// taken from a distinct position.
pub open spec fn chosen_from<T>(out: Seq<T>, src: Seq<T>) -> bool {
    exists|idx: Seq<int>| #[trigger] selection_indices(idx, out, src)
}

/// A buffer chosen from a source of pairwise distinct elements holds
/// pairwise distinct elements itself: the samplers never duplicate an
/// element beyond what the source already contained.
pub proof fn lemma_chosen_from_distinct<T>(out: Seq<T>, src: Seq<T>)
    requires
        chosen_from(out, src),
        forall|i: int, j: int| 0 <= i < j < src.len() ==> src[i] != src[j],
    ensures
        forall|i: int, j: int| 0 <= i < j < out.len() ==> out[i] != out[j],
{
    let idx = choose|idx: Seq<int>| selection_indices(idx, out, src);
    assert forall|i: int, j: int| 0 <= i < j < out.len() implies out[i] != out[j] by {
        assert(idx[i] != idx[j]);
        assert(out[i] == src[idx[i]] && out[j] == src[idx[j]]);
        if idx[i] < idx[j] {
            assert(src[idx[i]] != src[idx[j]]);
        } else {
            assert(src[idx[j]] != src[idx[i]]);
        }
    }
}

/// Picks one element uniformly from a one-pass sequence.
///
/// Returns nothing exactly when the sequence is empty; otherwise the result
/// is one of the sequence's elements. While the exact remaining count is
/// unknown the sampler alternates a chunked skip-ahead (whenever the reported
/// lower bound exceeds one) with the classic one-at-a-time reservoir of size
/// one, which keeps the element at position `pos` with probability `1 / pos`.
#[verifier::loop_isolation(false)]
pub fn choose_one<T, S: Sequence<T>>(s: S, rng: &fastrand::Rng) -> (r: Option<T>)
    requires
        s.remaining().len() <= usize::MAX,
    ensures
        (r is Some) <==> s.remaining().len() > 0,
        r matches Some(x) ==> s.remaining().contains(x),
{
    let ghost orig = s.remaining();
    let mut s = s;
    let hint = s.size_hint();
    let mut lower = hint.0;
    let mut upper = hint.1;
    let mut pos: usize = 0;
    let mut out: Option<T> = None;

    let exact_now = match upper {
        Some(u) => u == lower,
        None => false,
    };
    if exact_now {
        if lower == 0 {
            return None;
        }
        let idx = rand_index(rng, lower);
        let r = s.nth(idx);
        proof {
            assert(orig[idx as int] == r.unwrap());
        }
        return r;
    }

    proof {
        assert(orig.skip(0) =~= orig);
    }
    loop
        invariant
            s.remaining() == orig.skip(pos as int),
            pos <= orig.len() <= usize::MAX,
            out is None ==> pos == 0,
            out matches Some(x) ==> orig.contains(x),
            lower <= s.remaining().len(),
            upper matches Some(u) ==> s.remaining().len() <= u,
        decreases s.remaining().len(),
    {
        if lower > 1 {
            let index = rand_index(rng, lower + pos);
            let skipped: usize;
            if index < lower {
                let picked = s.nth(index);
                proof {
                    assert(orig.skip(pos as int)[index as int] == orig[pos + index]);
                    assert(orig[pos + index] == picked.unwrap());
                    assert(s.remaining() =~= orig.skip(pos + index + 1));
                }
                out = picked;
                skipped = lower - (index + 1);
            } else {
                skipped = lower;
            }
            let exact = match upper {
                Some(u) => u == lower,
                None => false,
            };
            if exact {
                return out;
            }
            if skipped > 0 {
                let _ = s.nth(skipped - 1);
            }
            proof {
                assert(s.remaining() =~= orig.skip(pos + lower));
            }
            pos = pos + lower;
        } else {
            let next = match s.next() {
                Some(next) => next,
                None => {
                    return out;
                },
            };
            proof {
                assert(orig.skip(pos as int)[0] == orig[pos as int]);
                assert(s.remaining() =~= orig.skip(pos + 1));
            }
            pos = pos + 1;
            if rand_index(rng, pos) == 0 {
                out = Some(next);
            }
        }

        let hint = s.size_hint();
        lower = hint.0;
        upper = hint.1;
    }
}

/// The reservoir maintenance shared by both multi-choice forms: the buffer
/// already holds the first `buf.len()` elements encountered; every further
/// element at position `i` (counted after those) replaces the slot drawn in
/// `[0, i + buf.len() + 1)` when that draw lands inside the buffer, and is
/// discarded otherwise.
#[verifier::loop_isolation(false)]
fn reservoir_replace<T, S: Sequence<T>>(s: S, rng: &fastrand::Rng, buf: &mut Vec<T>)
    requires
        old(buf)@.len() + s.remaining().len() <= usize::MAX,
    ensures
        final(buf)@.len() == old(buf)@.len(),
        chosen_from(final(buf)@, old(buf)@ + s.remaining()),
        s.remaining().len() == 0 ==> final(buf)@ == old(buf)@,
{
    let ghost src = old(buf)@ + s.remaining();
    let n = buf.len();
    let mut s = s;
    let mut i: usize = 0;
    let ghost mut idx: Seq<int> = Seq::new(n as nat, |k: int| k);
    let mut done = false;
    while !done
        invariant
            buf@.len() == n,
            n + i <= src.len() <= usize::MAX,
            s.remaining() == src.skip(n + i),
            done ==> s.remaining().len() == 0,
            src.len() == n ==> buf@ == old(buf)@,
            idx.len() == n,
            forall|k: int| 0 <= k < n ==> 0 <= #[trigger] idx[k] < n + i,
            forall|k: int| 0 <= k < n ==> buf@[k] == src[#[trigger] idx[k]],
            forall|k1: int, k2: int| 0 <= k1 < k2 < n ==> idx[k1] != idx[k2],
        decreases s.remaining().len(), (if done { 0int } else { 1int }),
    {
        match s.next() {
            Some(e) => {
                proof {
                    assert(src.skip(n + i)[0] == src[n + i]);
                    assert(s.remaining() =~= src.skip(n + i + 1));
                }
                let k = rand_index(rng, i + n + 1);
                if k < n {
                    buf.set(k, e);
                    proof {
                        idx = idx.update(k as int, n + i);
                    }
                }
                i = i + 1;
            },
            None => {
                done = true;
            },
        }
    }
    proof {
        assert(selection_indices(idx, buf@, src));
    }
}

/// Fills the caller's buffer with up to `buf.len()` uniformly chosen
/// elements of a one-pass sequence and returns how many slots were filled:
/// the shorter of buffer length and sequence length. Slots beyond that count
/// keep their previous contents. A sequence shorter than the buffer is copied
/// whole, in encounter order; otherwise every filled slot holds an element
/// taken from a distinct position of the sequence.
#[verifier::loop_isolation(false)]
pub fn choose_n_fill<T, S: Sequence<T>>(s: S, rng: &fastrand::Rng, buf: &mut Vec<T>) -> (count:
    usize)
    requires
        s.remaining().len() <= usize::MAX,
    ensures
        final(buf)@.len() == old(buf)@.len(),
        count == vstd::math::min(old(buf)@.len() as int, s.remaining().len() as int),
        forall|i: int| count <= i < old(buf)@.len() ==> final(buf)@[i] == old(buf)@[i],
        chosen_from(final(buf)@.subrange(0, count as int), s.remaining()),
        s.remaining().len() < old(buf)@.len() ==> final(buf)@.subrange(0, count as int)
            == s.remaining(),
{
    let ghost orig = s.remaining();
    let n = buf.len();
    if n == 0 {
        proof {
            let idx = Seq::<int>::empty();
            assert(selection_indices(idx, buf@.subrange(0, 0), orig));
        }
        return 0;
    }
    let mut s = s;
    let mut len: usize = 0;
    proof {
        assert(orig.skip(0) =~= orig);
    }
    while len < n
        invariant
            len <= n,
            buf@.len() == n,
            len <= orig.len(),
            s.remaining() == orig.skip(len as int),
            forall|i: int| 0 <= i < len ==> buf@[i] == orig[i],
            forall|i: int| len <= i < n ==> buf@[i] == old(buf)@[i],
        decreases n - len,
    {
        match s.next() {
            Some(e) => {
                buf.set(len, e);
                proof {
                    assert(orig.skip(len as int)[0] == orig[len as int]);
                    assert(s.remaining() =~= orig.skip(len + 1));
                }
                len = len + 1;
            },
            None => {
                proof {
                    let idx = Seq::new(len as nat, |k: int| k);
                    assert(buf@.subrange(0, len as int) =~= orig);
                    assert(selection_indices(idx, buf@.subrange(0, len as int), orig));
                }
                return len;
            },
        }
    }
    let ghost mid = buf@;
    let ghost mid_rem = s.remaining();
    reservoir_replace(s, rng, buf);
    proof {
        assert(mid + mid_rem =~= orig);
        assert(buf@.subrange(0, n as int) =~= buf@);
    }
    n
}

/// Returns up to `count` uniformly chosen elements of a one-pass sequence in
/// a fresh vector. A sequence of at most `count` elements comes back whole,
/// in encounter order; otherwise the result holds exactly `count` elements,
/// each taken from a distinct position of the sequence.
#[verifier::loop_isolation(false)]
pub fn choose_n<T, S: Sequence<T>>(s: S, rng: &fastrand::Rng, count: usize) -> (r: Vec<T>)
    requires
        s.remaining().len() <= usize::MAX,
    ensures
        r@.len() == vstd::math::min(count as int, s.remaining().len() as int),
        s.remaining().len() <= count ==> r@ == s.remaining(),
        chosen_from(r@, s.remaining()),
{
    let ghost orig = s.remaining();
    let mut buf: Vec<T> = Vec::new();
    if count == 0 {
        proof {
            let idx = Seq::<int>::empty();
            assert(selection_indices(idx, buf@, orig));
        }
        return buf;
    }
    let mut s = s;
    proof {
        assert(orig.skip(0) =~= orig);
    }
    while buf.len() < count
        invariant
            buf@.len() <= count,
            buf@.len() <= orig.len(),
            s.remaining() == orig.skip(buf@.len() as int),
            forall|i: int| 0 <= i < buf@.len() ==> buf@[i] == orig[i],
        decreases count - buf@.len(),
    {
        match s.next() {
            Some(e) => {
                proof {
                    assert(orig.skip(buf@.len() as int)[0] == orig[buf@.len() as int]);
                    assert(s.remaining() =~= orig.skip(buf@.len() as int + 1));
                }
                buf.push(e);
            },
            None => {
                proof {
                    let idx = Seq::new(buf@.len(), |k: int| k);
                    assert(buf@ =~= orig);
                    assert(selection_indices(idx, buf@, orig));
                }
                return buf;
            },
        }
    }
    let ghost mid = buf@;
    let ghost mid_rem = s.remaining();
    reservoir_replace(s, rng, &mut buf);
    proof {
        assert(mid + mid_rem =~= orig);
    }
    buf
}

} // verus!
