//! Checks the category and functor laws on sample objects, reporting the
//! first sample on which the two sides of a law differ.

use vstd::prelude::*;
use crate::arrow::{law_associativity, law_identity, Arrow, Composed, Identity};
use crate::encoding::encoded;
use crate::functor::{
    law_preserves_composition, law_preserves_identity, Encoded, Functor, IntToStringFunctor,
    LiftMorphism,
};

verus! {

/// The laws that the harness checks.
#[derive(Clone, Copy, Debug, PartialEq, Eq, Structural)]
pub enum Law {
    LeftIdentity,
    RightIdentity,
    Associativity,
    IdentityPreservation,
    CompositionPreservation,
}

/// A sample on which the two sides of a law differ.
#[derive(Clone, Debug, PartialEq)]
pub struct LawViolation<T> {
    pub law: Law,
    /// The sample object.
    pub input: i32,
    /// The left side of the law, evaluated on the sample.
    pub left: T,
    /// The right side of the law, evaluated on the sample.
    pub right: T,
}

/// The two sides agree on the first `k` samples.
pub open spec fn agree_upto<L: Arrow<i32>, R: Arrow<i32>>(l: L, r: R, s: Seq<i32>, k: int) -> bool {
    forall|j: int| 0 <= j < k ==> #[trigger] l.eval(s[j]) == r.eval(s[j])
}

/// Evaluates both sides of `law` on every sample, in order, and reports the
/// first sample on which they differ.
pub fn check_law<L: Arrow<i32>, R: Arrow<i32>>(
    law: Law,
    left: &L,
    right: &R,
    samples: &Vec<i32>,
) -> (r: Result<(), LawViolation<i32>>)
    requires
        left.wf(),
        right.wf(),
    ensures
        r is Ok <==> agree_upto(*left, *right, samples@, samples@.len() as int),
        r matches Err(v) ==> exists|k: int|
            0 <= k < samples@.len() && agree_upto(*left, *right, samples@, k) && v.law == law
                && v.input == samples@[k] && v.left == left.eval(samples@[k]) && v.right
                == right.eval(samples@[k]) && v.left != v.right,
{
    let mut i: usize = 0;
    while i < samples.len()
        invariant
            i <= samples@.len(),
            left.wf(),
            right.wf(),
            agree_upto(*left, *right, samples@, i as int),
        decreases samples@.len() - i,
    {
        let x = samples[i];
        let a = left.apply(x);
        let b = right.apply(x);
        if a != b {
            return Err(LawViolation { law, input: x, left: a, right: b });
        }
        i = i + 1;
    }
    Ok(())
}

/// Checks the identity and associativity laws of the integer category on
/// the samples. The laws hold for all well-formed morphisms, so the check
/// always passes.
pub fn check_category_laws<F: Arrow<i32>, G: Arrow<i32>, H: Arrow<i32>>(
    f: &F,
    g: &G,
    h: &H,
    samples: &Vec<i32>,
) -> (r: Result<(), LawViolation<i32>>)
    requires
        f.wf(),
        g.wf(),
        h.wf(),
    ensures
        r is Ok,
{
    proof {
        assert forall|x: i32| #[trigger] (Composed { f: f, g: Identity }).eval(x) == f.eval(x) by {
            law_identity(f, x);
        }
        assert forall|x: i32| #[trigger] (Composed { f: Identity, g: f }).eval(x) == f.eval(x) by {
            law_identity(f, x);
        }
        assert forall|x: i32| #[trigger] (Composed { f: Composed { f: f, g: g }, g: h }).eval(x)
            == (Composed { f: f, g: Composed { f: g, g: h } }).eval(x) by {
            law_associativity(f, g, h, x);
        }
    }
    let r1 = check_law(Law::RightIdentity, &Composed { f: f, g: Identity }, f, samples);
    if r1.is_err() {
        return r1;
    }
    let r2 = check_law(Law::LeftIdentity, &Composed { f: Identity, g: f }, f, samples);
    if r2.is_err() {
        return r2;
    }
    check_law(
        Law::Associativity,
        &Composed { f: Composed { f: f, g: g }, g: h },
        &Composed { f: f, g: Composed { f: g, g: h } },
        samples,
    )
}

/// The two text sides agree on the texts of the first `k` samples.
pub open spec fn agree_on_texts_upto<L: Arrow<String>, R: Arrow<String>>(
    l: L,
    r: R,
    s: Seq<i32>,
    k: int,
) -> bool {
    forall|j: int| 0 <= j < k ==> #[trigger] l.eval(encoded(s[j])) == r.eval(encoded(s[j]))
}

/// Evaluates both sides of `law` on the text of every sample, in order, and
/// reports the first sample on which they differ.
pub fn check_text_law<L: Arrow<String>, R: Arrow<String>>(
    law: Law,
    left: &L,
    right: &R,
    samples: &Vec<i32>,
) -> (r: Result<(), LawViolation<String>>)
    requires
        left.wf(),
        right.wf(),
    ensures
        r is Ok <==> agree_on_texts_upto(*left, *right, samples@, samples@.len() as int),
        r matches Err(v) ==> exists|k: int|
            0 <= k < samples@.len() && agree_on_texts_upto(*left, *right, samples@, k) && v.law
                == law && v.input == samples@[k] && v.left@ == left.eval(encoded(samples@[k]))
                && v.right@ == right.eval(encoded(samples@[k])) && v.left@ != v.right@,
{
    let mut i: usize = 0;
    while i < samples.len()
        invariant
            i <= samples@.len(),
            left.wf(),
            right.wf(),
            agree_on_texts_upto(*left, *right, samples@, i as int),
        decreases samples@.len() - i,
    {
        let x = samples[i];
        let a = left.apply(IntToStringFunctor::map_object(x));
        let b = right.apply(IntToStringFunctor::map_object(x));
        if !(a == b) {
            return Err(LawViolation { law, input: x, left: a, right: b });
        }
        i = i + 1;
    }
    Ok(())
}

/// Checks that the integer-to-text functor preserves the identity and the
/// composite of `f` and `g`, on the texts of the samples. Both laws hold
/// for all well-formed morphisms, so the check always passes.
pub fn check_functor_laws<F: Arrow<i32>, G: Arrow<i32>>(
    f: &F,
    g: &G,
    samples: &Vec<i32>,
) -> (r: Result<(), LawViolation<String>>)
    requires
        f.wf(),
        g.wf(),
    ensures
        r is Ok,
{
    let lifted_id = IntToStringFunctor::map_morphism(Identity);
    let lifted_comp = IntToStringFunctor::map_morphism(Composed { f: f, g: g });
    let comp_lifted = Composed {
        f: IntToStringFunctor::map_morphism(f),
        g: IntToStringFunctor::map_morphism(g),
    };
    proof {
        assert forall|x: i32| #[trigger] lifted_id.eval(encoded(x)) == Arrow::<String>::eval(
            &Identity,
            encoded(x),
        ) by {
            law_preserves_identity::<IntToStringFunctor, Encoded<Identity>>(lifted_id, x);
        }
        assert forall|x: i32| #[trigger] lifted_comp.eval(encoded(x)) == comp_lifted.eval(
            encoded(x),
        ) by {
            law_preserves_composition::<IntToStringFunctor, _, _, _, _, _>(
                f,
                g,
                comp_lifted.f,
                comp_lifted.g,
                lifted_comp,
                x,
            );
        }
    }
    let r1 = check_text_law(Law::IdentityPreservation, &lifted_id, &Identity, samples);
    if r1.is_err() {
        return r1;
    }
    check_text_law(Law::CompositionPreservation, &lifted_comp, &comp_lifted, samples)
}

} // verus!
