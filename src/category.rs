//! The category abstraction and its two instances over integers and text.

use vstd::prelude::*;
use crate::arrow::{Arrow, Composed, Identity};

verus! {

/// A category whose objects are values of `Self::Object` and whose
/// morphisms are the well-formed arrows on them.
pub trait Category {
    type Object: View;

    /// The identity morphism of the category.
    fn id() -> (r: Identity)
        ensures
            forall|x: <Self::Object as View>::V| #[trigger] Arrow::<Self::Object>::eval(&r, x) == x,
    ;

    /// The morphism that applies `g`, then `f`.
    fn compose<F: Arrow<Self::Object>, G: Arrow<Self::Object>>(f: F, g: G) -> (r: Composed<F, G>)
        requires
            f.wf(),
            g.wf(),
        ensures
            r.f == f,
            r.g == g,
            Arrow::<Self::Object>::wf(&r),
            forall|x: <Self::Object as View>::V| #[trigger] Arrow::<Self::Object>::eval(&r, x) == f.eval(g.eval(x)),
    ;
}

/// Integers under total integer functions.
pub struct IntCategory;

/// Text values under total text functions.
pub struct StringCategory;

impl Category for IntCategory {
    type Object = i32;

    fn id() -> (r: Identity) {
        Identity
    }

    fn compose<F: Arrow<i32>, G: Arrow<i32>>(f: F, g: G) -> (r: Composed<F, G>) {
        Composed { f, g }
    }
}

impl Category for StringCategory {
    type Object = String;

    fn id() -> (r: Identity) {
        Identity
    }

    fn compose<F: Arrow<String>, G: Arrow<String>>(f: F, g: G) -> (r: Composed<F, G>) {
        Composed { f, g }
    }
}

} // verus!
