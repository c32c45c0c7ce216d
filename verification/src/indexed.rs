//! Uniform operations on an indexable sequence: an in-place Fisher-Yates
//! shuffle and drawing one random element by reference.

use vstd::prelude::*;
use vstd::seq_lib::group_to_multiset_ensures;
use vstd::seq_lib::to_multiset_update;
use vstd::slice::slice_index_get;

use crate::rng::rand_index;

verus! {

/// Relies on the slice `swap` of std: it exchanges the elements at the two
/// given positions, which must both be in bounds.
#[verifier::external_body]
fn swap_positions<T>(v: &mut Vec<T>, a: usize, b: usize)
    requires
        a < old(v)@.len(),
        b < old(v)@.len(),
    ensures
        final(v)@ == old(v)@.update(a as int, old(v)@[b as int]).update(
            b as int,
            old(v)@[a as int],
        ),
{
    v.swap(a, b)
}

/// Exchanging two in-bounds positions of a sequence keeps its multiset of
/// elements.
proof fn lemma_swap_preserves_multiset<T>(s: Seq<T>, a: int, b: int)
    requires
        0 <= a < s.len(),
        0 <= b < s.len(),
    ensures
        s.update(a, s[b]).update(b, s[a]).to_multiset() == s.to_multiset(),
{
    broadcast use to_multiset_update;
    broadcast use group_to_multiset_ensures;

    let s1 = s.update(a, s[b]);
    let s2 = s1.update(b, s[a]);
    if a == b {
        assert(s2 =~= s);
    } else {
        assert(s1[b] == s[b]);
        assert(s.to_multiset().contains(s[a]));
        assert(s1.to_multiset().contains(s[b]));
        assert(s2.to_multiset() =~= s.to_multiset());
    }
}

/// Shuffles the vector in place: the standard Fisher-Yates walk, swapping
/// position `i` with a uniform position in `[0, i]` for every `i` from one
/// upward. The result holds exactly the elements it started with; a vector of
/// at most one element is left as it was.
#[verifier::loop_isolation(false)]
pub fn shuffle<T>(v: &mut Vec<T>, rng: &fastrand::Rng)
    ensures
        final(v)@.len() == old(v)@.len(),
        final(v)@.to_multiset() == old(v)@.to_multiset(),
        old(v)@.len() <= 1 ==> final(v)@ == old(v)@,
{
    let len = v.len();
    let mut i: usize = 1;
    while i < len
        invariant
            1 <= i,
            v@.len() == len,
            v@.to_multiset() == old(v)@.to_multiset(),
            len <= 1 ==> v@ == old(v)@,
        decreases len - i,
    {
        let j = rand_index(rng, i + 1);
        let ghost before = v@;
        swap_positions(v, i, j);
        proof {
            lemma_swap_preserves_multiset(before, i as int, j as int);
        }
        i = i + 1;
    }
}

/// Picks one element of the slice uniformly and returns a reference to it,
/// or nothing exactly when the slice is empty.
pub fn choose_from_slice<'a, T>(s: &'a [T], rng: &fastrand::Rng) -> (r: Option<&'a T>)
    ensures
        (r is Some) <==> s@.len() > 0,
        r matches Some(x) ==> exists|i: int| 0 <= i < s@.len() && *x == s@[i],
{
    let len = s.len();
    if len == 0 {
        None
    } else {
        let i = rand_index(rng, len);
        let picked = slice_index_get(s, i);
        proof {
            assert(*picked == s@[i as int]);
        }
        Some(picked)
    }
}

/// Picks one element of the vector uniformly and returns a mutable reference
/// to it, or nothing exactly when the vector is empty. Whatever the caller
/// writes through the reference lands at the picked position; everything else
/// stays put.
pub fn choose_from_slice_mut<'a, T>(v: &'a mut Vec<T>, rng: &fastrand::Rng) -> (r: Option<
    &'a mut T,
>)
    ensures
        (r is Some) <==> old(v)@.len() > 0,
        old(v)@.len() == 0 ==> final(v)@ == old(v)@,
        r matches Some(x) ==> exists|i: int|
            0 <= i < old(v)@.len() && *x == old(v)@[i] && final(v)@ == old(v)@.update(
                i,
                *final(x),
            ),
{
    let len = v.len();
    if len == 0 {
        None
    } else {
        let i = rand_index(rng, len);
        let picked = &mut v[i];
        Some(picked)
    }
}

} // verus!
