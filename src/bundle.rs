//! The sequence functor: an ordered bundle of values, mapped element-wise.

use vstd::prelude::*;

verus! {

/// An ordered sequence of values.
#[derive(Debug, Clone, PartialEq)]
pub struct FunctorBundle<T> {
    pub values: Vec<T>,
}

/// `w` is `v` with each element replaced by a result of `f` on it.
pub open spec fn maps_by<T, U, F: Fn(&T) -> U>(f: F, v: Seq<T>, w: Seq<U>) -> bool {
    &&& w.len() == v.len()
    &&& forall|i: int| 0 <= i < v.len() ==> call_ensures(f, (&v[i],), #[trigger] w[i])
}

/// `f` accepts each element of `v`.
pub open spec fn accepts_all<T, U, F: Fn(&T) -> U>(f: F, v: Seq<T>) -> bool {
    forall|i: int| 0 <= i < v.len() ==> #[trigger] call_requires(f, (&v[i],))
}

/// `f` gives at most one result for each argument.
pub open spec fn deterministic<T, U, F: Fn(&T) -> U>(f: F) -> bool {
    forall|x: T, y1: U, y2: U|
        #[trigger] call_ensures(f, (&x,), y1) && #[trigger] call_ensures(f, (&x,), y2) ==> y1 == y2
}

/// Every result of `h` is a result of `g` on a result of `f`.
pub open spec fn composes<T, U, W, F: Fn(&T) -> U, G: Fn(&U) -> W, H: Fn(&T) -> W>(
    h: H,
    g: G,
    f: F,
) -> bool {
    forall|x: T, z: W|
        #[trigger] call_ensures(h, (&x,), z) ==> exists|y: U|
            #[trigger] call_ensures(f, (&x,), y) && call_ensures(g, (&y,), z)
}

impl<T> FunctorBundle<T> {
    /// A new bundle whose values are `f` of each value, in the same order.
    pub fn fmap<U, F: Fn(&T) -> U>(&self, f: F) -> (r: FunctorBundle<U>)
        requires
            accepts_all(f, self.values@),
        ensures
            maps_by(f, self.values@, r.values@),
    {
        let mut out: Vec<U> = Vec::new();
        let mut i: usize = 0;
        while i < self.values.len()
            invariant
                i <= self.values@.len(),
                accepts_all(f, self.values@),
                maps_by(f, self.values@.subrange(0, i as int), out@),
            decreases self.values@.len() - i,
        {
            let y = f(&self.values[i]);
            out.push(y);
            i = i + 1;
        }
        assert(self.values@.subrange(0, i as int) =~= self.values@);
        FunctorBundle { values: out }
    }
}

/// Fusion: mapping by `f` and then by `g` gives the same bundle as mapping
/// once by a function `h` that is `g` after `f`.
pub proof fn law_fusion<T, U, W, F: Fn(&T) -> U, G: Fn(&U) -> W, H: Fn(&T) -> W>(
    f: F,
    g: G,
    h: H,
    v: Seq<T>,
    fv: Seq<U>,
    gfv: Seq<W>,
    hv: Seq<W>,
)
    requires
        deterministic(f),
        deterministic(g),
        composes(h, g, f),
        maps_by(f, v, fv),
        maps_by(g, fv, gfv),
        maps_by(h, v, hv),
    ensures
        gfv == hv,
{
    assert forall|i: int| 0 <= i < v.len() implies gfv[i] == hv[i] by {
        assert(call_ensures(h, (&v[i],), hv[i]));
        let y = choose|y: U| call_ensures(f, (&v[i],), y) && call_ensures(g, (&y,), hv[i]);
        assert(call_ensures(f, (&v[i],), fv[i]));
        assert(call_ensures(g, (&fv[i],), gfv[i]));
    }
    assert(gfv =~= hv);
}

/// Mapping by a function that returns its argument leaves the bundle as it was.
pub proof fn law_fmap_identity<T, F: Fn(&T) -> T>(f: F, v: Seq<T>, w: Seq<T>)
    requires
        forall|x: T, y: T| #[trigger] call_ensures(f, (&x,), y) ==> y == x,
        maps_by(f, v, w),
    ensures
        w == v,
{
    assert forall|i: int| 0 <= i < v.len() implies w[i] == v[i] by {
        assert(call_ensures(f, (&v[i],), w[i]));
    }
    assert(w =~= v);
}

} // verus!
