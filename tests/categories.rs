use category_theory::arrow::{Arrow, Composed, FnArrow, Identity};
use category_theory::category::{Category, IntCategory, StringCategory};

#[test]
fn int_identity_is_neutral() {
    let id = IntCategory::id();
    assert_eq!(Arrow::<i32>::apply(&id, 5), 5);
    let f = FnArrow::new(|x: i32| x + 1);
    let right = IntCategory::compose(&f, IntCategory::id());
    let left = IntCategory::compose(IntCategory::id(), &f);
    for x in [0, 1, 2, 5, 10, -7] {
        assert_eq!(right.apply(x), f.apply(x));
        assert_eq!(left.apply(x), f.apply(x));
    }
}

#[test]
fn int_compose_applies_right_operand_first() {
    let f = FnArrow::new(|x: i32| x + 1);
    let g = FnArrow::new(|x: i32| x * 2);
    let composed = IntCategory::compose(f, g);
    assert_eq!(composed.apply(5), 11);
}

#[test]
fn int_composition_matches_nested_calls() {
    let composed = IntCategory::compose(FnArrow::new(|x: i32| x + 1), FnArrow::new(|x: i32| x * 2));
    for x in [0, 1, 2, 5, 10] {
        assert_eq!(composed.apply(x), (x * 2) + 1);
    }
}

#[test]
fn int_composition_is_associative() {
    let f = FnArrow::new(|x: i32| x + 1);
    let g = FnArrow::new(|x: i32| x * 2);
    let h = FnArrow::new(|x: i32| x - 3);
    let a = Composed { f: Composed { f: &f, g: &g }, g: &h };
    let b = Composed { f: &f, g: Composed { f: &g, g: &h } };
    for x in [-4, 0, 1, 2, 5, 10] {
        assert_eq!(a.apply(x), b.apply(x));
    }
    assert_eq!(a.apply(5), 5);
}

#[test]
fn string_category_composes_text_functions() {
    let shout = FnArrow::new(|s: String| s.to_uppercase());
    let bang = FnArrow::new(|s: String| s + "!");
    let composed = StringCategory::compose(bang, shout);
    assert_eq!(composed.apply("hi".to_string()), "HI!");
    let id = StringCategory::id();
    assert_eq!(Arrow::<String>::apply(&id, "same".to_string()), "same");
}

#[test]
fn string_identity_is_neutral() {
    let f = FnArrow::new(|s: String| format!("<{}>", s));
    let right = StringCategory::compose(&f, Identity);
    let left = StringCategory::compose(Identity, &f);
    for s in ["", "a", "text"] {
        assert_eq!(right.apply(s.to_string()), f.apply(s.to_string()));
        assert_eq!(left.apply(s.to_string()), f.apply(s.to_string()));
    }
}
