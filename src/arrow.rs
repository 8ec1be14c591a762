//! Morphisms: values that can be applied to objects, each with a
//! mathematical meaning on the objects' views.

use vstd::prelude::*;

verus! {

/// A morphism from objects of type `T` to objects of type `T`.
///
/// `eval` is what the morphism means on views; `apply` computes it.
pub trait Arrow<T: View>: Sized {
    /// The morphism is total and deterministic on views.
    spec fn wf(&self) -> bool;

    /// The meaning of the morphism on the view of an object.
    spec fn eval(&self, x: T::V) -> T::V;

    fn apply(&self, x: T) -> (r: T)
        requires
            self.wf(),
        ensures
            r@ == self.eval(x@),
    ;
}

/// The identity morphism: every object is sent to itself.
#[derive(Clone, Copy)]
pub struct Identity;

impl<T: View> Arrow<T> for Identity {
    open spec fn wf(&self) -> bool {
        true
    }

    open spec fn eval(&self, x: T::V) -> T::V {
        x
    }

    fn apply(&self, x: T) -> (r: T) {
        x
    }
}

/// A borrowed morphism means what it borrows.
impl<'a, T: View, A: Arrow<T>> Arrow<T> for &'a A {
    open spec fn wf(&self) -> bool {
        (**self).wf()
    }

    open spec fn eval(&self, x: T::V) -> T::V {
        (**self).eval(x)
    }

    fn apply(&self, x: T) -> (r: T) {
        (**self).apply(x)
    }
}

/// `Composed { f, g }` applies `g` first, then `f`.
pub struct Composed<F, G> {
    pub f: F,
    pub g: G,
}

impl<T: View, F: Arrow<T>, G: Arrow<T>> Arrow<T> for Composed<F, G> {
    open spec fn wf(&self) -> bool {
        self.f.wf() && self.g.wf()
    }

    open spec fn eval(&self, x: T::V) -> T::V {
        self.f.eval(self.g.eval(x))
    }

    fn apply(&self, x: T) -> (r: T) {
        let y = self.g.apply(x);
        self.f.apply(y)
    }
}

/// A morphism given by a closure, with the meaning that it computes.
pub struct FnArrow<T: View, C> {
    pub func: C,
    pub meaning: Ghost<spec_fn(T::V) -> T::V>,
}

/// The closure accepts every object.
pub open spec fn total<T, C: Fn(T) -> T>(c: C) -> bool {
    forall|x: T| call_requires(c, (x,))
}

/// Objects with equal views are sent to results with equal views.
pub open spec fn functional<T: View, C: Fn(T) -> T>(c: C) -> bool {
    forall|x1: T, x2: T, y1: T, y2: T|
        x1@ == x2@ && #[trigger] call_ensures(c, (x1,), y1) && #[trigger] call_ensures(c, (x2,), y2)
            ==> y1@ == y2@
}

/// Some object with view `v` is sent by `c` to an object with view `w`.
pub open spec fn reaches<T: View, C: Fn(T) -> T>(c: C, v: T::V, w: T::V) -> bool {
    exists|x: T, y: T| x@ == v && y@ == w && #[trigger] call_ensures(c, (x,), y)
}

/// What `c` computes on views: for each view, a view that `c` can send it to.
pub open spec fn computed_by<T: View, C: Fn(T) -> T>(c: C) -> spec_fn(T::V) -> T::V {
    |v: T::V| choose|w: T::V| reaches(c, v, w)
}

/// Every result of `c` has the view that `m` gives for its argument.
pub open spec fn computes<T: View, C: Fn(T) -> T>(c: C, m: spec_fn(T::V) -> T::V) -> bool {
    forall|x: T, y: T| #[trigger] call_ensures(c, (x,), y) ==> y@ == m(x@)
}

impl<T: View, C: Fn(T) -> T> FnArrow<T, C> {
    /// The morphism that `func` computes.
    pub fn new(func: C) -> (r: FnArrow<T, C>)
        ensures
            r.func == func,
            r.meaning@ == computed_by(func),
            r.wf() <==> total(func) && functional(func),
            forall|x: T::V| #[trigger] r.eval(x) == computed_by(func)(x),
    {
        let r = FnArrow { func, meaning: Ghost(computed_by(func)) };
        proof {
            if functional(func) {
                assert forall|x: T, y: T| #[trigger] call_ensures(func, (x,), y) implies y@ == (
                computed_by(func))(x@) by {
                    assert(reaches(func, x@, y@));
                }
            }
            if computes(func, computed_by(func)) {
                assert forall|x1: T, x2: T, y1: T, y2: T|
                    x1@ == x2@ && #[trigger] call_ensures(func, (x1,), y1) && #[trigger] call_ensures(
                        func,
                        (x2,),
                        y2,
                    ) implies y1@ == y2@ by {
                    assert(y1@ == computed_by(func)(x1@));
                    assert(y2@ == computed_by(func)(x2@));
                }
            }
        }
        r
    }

    /// The morphism `func`, which computes `meaning`.
    pub fn with_meaning(func: C, meaning: Ghost<spec_fn(T::V) -> T::V>) -> (r: FnArrow<T, C>)
        ensures
            r.func == func,
            r.meaning == meaning,
            r.wf() <==> total(func) && computes(func, meaning@),
            forall|x: T::V| #[trigger] r.eval(x) == (meaning@)(x),
    {
        FnArrow { func, meaning }
    }
}

impl<T: View, C: Fn(T) -> T> Arrow<T> for FnArrow<T, C> {
    open spec fn wf(&self) -> bool {
        total(self.func) && computes(self.func, self.meaning@)
    }

    open spec fn eval(&self, x: T::V) -> T::V {
        (self.meaning@)(x)
    }

    fn apply(&self, x: T) -> (r: T) {
        (self.func)(x)
    }
}

/// Composing with the identity on either side leaves a morphism's meaning unchanged.
pub proof fn law_identity<T: View, F: Arrow<T>>(f: F, x: T::V)
    requires
        f.wf(),
    ensures
        (Composed { f: f, g: Identity }).wf(),
        (Composed { f: Identity, g: f }).wf(),
        (Composed { f: f, g: Identity }).eval(x) == f.eval(x),
        (Composed { f: Identity, g: f }).eval(x) == f.eval(x),
{
}

/// Composition is associative: the grouping of three morphisms does not
/// change the meaning of their composite.
pub proof fn law_associativity<T: View, F: Arrow<T>, G: Arrow<T>, H: Arrow<T>>(f: F, g: G, h: H, x: T::V)
    requires
        f.wf(),
        g.wf(),
        h.wf(),
    ensures
        (Composed { f: Composed { f: f, g: g }, g: h }).wf(),
        (Composed { f: f, g: Composed { f: g, g: h } }).wf(),
        (Composed { f: Composed { f: f, g: g }, g: h }).eval(x)
            == (Composed { f: f, g: Composed { f: g, g: h } }).eval(x),
{
}

} // verus!
