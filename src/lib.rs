//! Categories, morphisms and functors over concrete values, with the
//! category and functor laws proved for every instance.

pub mod arrow;
pub mod bundle;
pub mod category;
pub mod encoding;
pub mod functor;
pub mod harness;
