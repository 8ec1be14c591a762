use category_theory::arrow::{Arrow, Composed, FnArrow, Identity};
use category_theory::bundle::FunctorBundle;
use category_theory::encoding::{decode_number, encode_number, read_number_text};
use category_theory::functor::{Functor, IntToStringFunctor, LiftMorphism};

#[test]
fn map_object_writes_tagged_text() {
    assert_eq!(IntToStringFunctor::map_object(5), "Number(5)");
    assert_eq!(IntToStringFunctor::map_object(0), "Number(0)");
    assert_eq!(IntToStringFunctor::map_object(-42), "Number(-42)");
    assert_eq!(IntToStringFunctor::map_object(i32::MIN), "Number(-2147483648)");
    assert_eq!(IntToStringFunctor::map_object(i32::MAX), "Number(2147483647)");
}

#[test]
fn map_morphism_lifts_increment() {
    let mapped = IntToStringFunctor::map_morphism(FnArrow::new(|x: i32| x + 1));
    assert_eq!(mapped.apply("Number(10)".to_string()), "Number(11)");
}

#[test]
fn map_morphism_falls_back_to_zero_on_garbage() {
    let mapped = IntToStringFunctor::map_morphism(FnArrow::new(|x: i32| x + 1));
    assert_eq!(mapped.apply("garbage".to_string()), "Number(1)");
    let doubled = IntToStringFunctor::map_morphism(FnArrow::new(|x: i32| x * 2 + 7));
    assert_eq!(doubled.apply("garbage".to_string()), "Number(7)");
}

#[test]
fn functor_preserves_identity_on_samples() {
    let lifted = IntToStringFunctor::map_morphism(Identity);
    for x in [-3, 0, 5, 12345] {
        let text = IntToStringFunctor::map_object(x);
        assert_eq!(lifted.apply(text.clone()), Arrow::<String>::apply(&Identity, text));
    }
}

#[test]
fn functor_preserves_composition_on_samples() {
    let f = FnArrow::new(|x: i32| x + 1);
    let g = FnArrow::new(|x: i32| x * 2);
    let lifted = IntToStringFunctor::map_morphism(Composed { f: &f, g: &g });
    let composed = Composed {
        f: IntToStringFunctor::map_morphism(&f),
        g: IntToStringFunctor::map_morphism(&g),
    };
    for x in [-3, 0, 5, 100] {
        let text = IntToStringFunctor::map_object(x);
        assert_eq!(lifted.apply(text.clone()), composed.apply(text));
    }
    assert_eq!(lifted.apply(IntToStringFunctor::map_object(5)), "Number(11)");
}

#[test]
fn reader_takes_off_repeated_tags_and_closers() {
    assert_eq!(read_number_text(&"Number(Number(5))".to_string()), Some(5));
    assert_eq!(read_number_text(&"Number(12)))".to_string()), Some(12));
    assert_eq!(read_number_text(&"+7".to_string()), Some(7));
    assert_eq!(read_number_text(&"Number(-2147483648)".to_string()), Some(i32::MIN));
}

#[test]
fn reader_rejects_what_is_not_an_integer() {
    assert_eq!(read_number_text(&"garbage".to_string()), None);
    assert_eq!(read_number_text(&"Number()".to_string()), None);
    assert_eq!(read_number_text(&"Number(-)".to_string()), None);
    assert_eq!(read_number_text(&"Number(2147483648)".to_string()), None);
    assert_eq!(read_number_text(&"Number(1 2)".to_string()), None);
    assert_eq!(read_number_text(&"".to_string()), None);
    assert_eq!(decode_number(&"Number(99999999999)".to_string()), 0);
}

#[test]
fn text_round_trip() {
    for x in [i32::MIN, -1000, -1, 0, 9, 10, 1234567, i32::MAX] {
        assert_eq!(decode_number(&encode_number(x)), x);
    }
}

#[test]
fn fmap_squares_in_order() {
    let numbers = FunctorBundle { values: vec![1, 2, 3] };
    let squared = numbers.fmap(|x: &i32| x * x);
    assert_eq!(squared.values, vec![1, 4, 9]);
    assert_eq!(numbers.values, vec![1, 2, 3]);
}

#[test]
fn fmap_fusion_law() {
    let bundle = FunctorBundle { values: vec![1, 2, 3] };
    let f = |x: &i32| x * x;
    let g = |x: &i32| x + 1;
    let sequential = bundle.fmap(f).fmap(g);
    let composed = bundle.fmap(|x: &i32| g(&f(x)));
    assert_eq!(sequential.values, vec![2, 5, 10]);
    assert_eq!(composed.values, vec![2, 5, 10]);
    assert_eq!(sequential, composed);
}

#[test]
fn fmap_changes_element_type_and_keeps_empty() {
    let bundle = FunctorBundle { values: vec![3, 10] };
    let texts = bundle.fmap(|x: &i32| IntToStringFunctor::map_object(*x));
    assert_eq!(texts.values, vec!["Number(3)".to_string(), "Number(10)".to_string()]);
    let empty: FunctorBundle<i32> = FunctorBundle { values: vec![] };
    assert_eq!(empty.fmap(|x: &i32| x + 1).values, Vec::<i32>::new());
}
