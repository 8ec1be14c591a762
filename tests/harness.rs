use category_theory::arrow::FnArrow;
use category_theory::harness::{
    check_category_laws, check_functor_laws, check_law, check_text_law, Law, LawViolation,
};
use category_theory::functor::{IntToStringFunctor, LiftMorphism};

#[test]
fn category_laws_pass_on_samples() {
    let f = FnArrow::new(|x: i32| x + 1);
    let g = FnArrow::new(|x: i32| x * 2);
    let h = FnArrow::new(|x: i32| x - 3);
    assert_eq!(check_category_laws(&f, &g, &h, &vec![0, 1, 2, 5, 10]), Ok(()));
}

#[test]
fn functor_laws_pass_on_samples() {
    let f = FnArrow::new(|x: i32| x + 1);
    let g = FnArrow::new(|x: i32| x * 2);
    assert_eq!(check_functor_laws(&f, &g, &vec![-5, 0, 5, 10]), Ok(()));
}

#[test]
fn check_law_reports_first_mismatch() {
    let inc = FnArrow::new(|x: i32| x + 1);
    let dbl = FnArrow::new(|x: i32| x * 2);
    let r = check_law(Law::Associativity, &inc, &dbl, &vec![1, 2, 3]);
    assert_eq!(
        r,
        Err(LawViolation { law: Law::Associativity, input: 2, left: 3, right: 4 })
    );
}

#[test]
fn check_law_passes_on_empty_samples() {
    let inc = FnArrow::new(|x: i32| x + 1);
    let dbl = FnArrow::new(|x: i32| x * 2);
    assert_eq!(check_law(Law::LeftIdentity, &inc, &dbl, &vec![]), Ok(()));
}

#[test]
fn check_text_law_reports_mismatch() {
    let inc = IntToStringFunctor::map_morphism(FnArrow::new(|x: i32| x + 1));
    let dbl = IntToStringFunctor::map_morphism(FnArrow::new(|x: i32| x * 2));
    let r = check_text_law(Law::CompositionPreservation, &inc, &dbl, &vec![1, 4]);
    assert_eq!(
        r,
        Err(LawViolation {
            law: Law::CompositionPreservation,
            input: 4,
            left: "Number(5)".to_string(),
            right: "Number(8)".to_string(),
        })
    );
}
