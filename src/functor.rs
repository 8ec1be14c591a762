//! Functors between categories of values, and the functor from the integer
//! category to the text category.

use vstd::prelude::*;
use crate::arrow::{Arrow, Composed, Identity};
use crate::encoding::{decode_number, decoded, encode_number, encoded, lemma_read_encoded};

verus! {

/// A functor between two categories of values: its object map sends
/// objects of `Source` to objects of `Target`.
pub trait Functor: Sized {
    type Source: View;
    type Target: View;

    /// The object map on views.
    spec fn object_map(x: <Self::Source as View>::V) -> <Self::Target as View>::V;

    fn map_object(obj: Self::Source) -> (r: Self::Target)
        ensures
            r@ == Self::object_map(obj@),
    ;
}

/// `l` commutes with the object map of `F` as the lift of `m`: on the image
/// of every source object, `l` gives the image of what `m` gives.
pub open spec fn lifts<F: Functor, M: Arrow<F::Source>, L: Arrow<F::Target>>(m: M, l: L) -> bool {
    forall|x: <F::Source as View>::V| #[trigger] l.eval(F::object_map(x)) == F::object_map(m.eval(x))
}

/// The morphism map of a functor, for source morphisms of type `M`.
pub trait LiftMorphism<M: Arrow<Self::Source>>: Functor {
    type Lifted: Arrow<Self::Target>;

    fn map_morphism(m: M) -> (r: Self::Lifted)
        ensures
            m.wf() ==> r.wf(),
            lifts::<Self, M, Self::Lifted>(m, r),
    ;
}

/// A functor that lifts the identity sends the image of every object to itself.
pub proof fn law_preserves_identity<F: Functor, L: Arrow<F::Target>>(l: L, x: <F::Source as View>::V)
    requires
        lifts::<F, Identity, L>(Identity, l),
    ensures
        l.eval(F::object_map(x)) == Arrow::<F::Target>::eval(&Identity, F::object_map(x)),
{
    assert(l.eval(F::object_map(x)) == F::object_map(Arrow::<F::Source>::eval(&Identity, x)));
}

/// The lift of a composite agrees with the composite of the lifts on the
/// image of every object.
pub proof fn law_preserves_composition<
    F: Functor,
    P: Arrow<F::Source>,
    Q: Arrow<F::Source>,
    LP: Arrow<F::Target>,
    LQ: Arrow<F::Target>,
    LC: Arrow<F::Target>,
>(p: P, q: Q, lp: LP, lq: LQ, lc: LC, x: <F::Source as View>::V)
    requires
        lifts::<F, P, LP>(p, lp),
        lifts::<F, Q, LQ>(q, lq),
        lifts::<F, Composed<P, Q>, LC>(Composed { f: p, g: q }, lc),
    ensures
        lc.eval(F::object_map(x)) == (Composed { f: lp, g: lq }).eval(F::object_map(x)),
{
    assert(lq.eval(F::object_map(x)) == F::object_map(q.eval(x)));
    assert(lp.eval(F::object_map(q.eval(x))) == F::object_map(p.eval(q.eval(x))));
    assert(lc.eval(F::object_map(x)) == F::object_map((Composed { f: p, g: q }).eval(x)));
}

/// Sends an integer to its text `Number(<n>)`, and an integer morphism to
/// the text morphism that reads the integer, applies the morphism and
/// writes the result. Text that cannot be read counts as the integer 0.
pub struct IntToStringFunctor;

/// The text morphism that an integer morphism is lifted to.
pub struct Encoded<M> {
    pub m: M,
}

impl<M: Arrow<i32>> Arrow<String> for Encoded<M> {
    open spec fn wf(&self) -> bool {
        self.m.wf()
    }

    open spec fn eval(&self, x: Seq<char>) -> Seq<char> {
        encoded(self.m.eval(decoded(x)))
    }

    fn apply(&self, x: String) -> (r: String) {
        let n = decode_number(&x);
        let y = self.m.apply(n);
        encode_number(y)
    }
}

impl Functor for IntToStringFunctor {
    type Source = i32;
    type Target = String;

    open spec fn object_map(x: i32) -> Seq<char> {
        encoded(x)
    }

    /// The text of an integer.
    fn map_object(obj: i32) -> (r: String) {
        encode_number(obj)
    }
}

impl<M: Arrow<i32>> LiftMorphism<M> for IntToStringFunctor {
    type Lifted = Encoded<M>;

    /// Lifts an integer morphism to a text morphism.
    fn map_morphism(m: M) -> (r: Encoded<M>) {
        let r = Encoded { m };
        proof {
            assert forall|x: i32| #[trigger] r.eval(encoded(x)) == encoded(m.eval(x)) by {
                lemma_read_encoded(x);
            }
        }
        r
    }
}

} // verus!
