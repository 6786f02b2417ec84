use steel::errors::ErrorKind;
use steel::primitives::{
    apply_prim, make_list, Adder, Divider, Multiplier, RucketFunctor, Subtractor, VecNumbers,
};
use steel::values::{Prim, Value};

#[test]
fn adder_sums_its_arguments() {
    let input = VecNumbers(vec![1, 2, 3, 4]);
    assert_eq!(Adder::call(input).unwrap(), 10);
}

#[test]
fn multiplier_multiplies() {
    let input = VecNumbers(vec![2, 3, 4]);
    assert_eq!(Multiplier::call(input).unwrap(), 24);
}

#[test]
fn subtractor_folds_from_the_first() {
    let input = VecNumbers(vec![10, 1, 2]);
    assert_eq!(Subtractor::call(input).unwrap(), 7);
    let err = Subtractor::call(VecNumbers(vec![])).unwrap_err();
    assert_eq!(err.error_kind(), ErrorKind::ArityMismatch);
}

#[test]
fn divider_folds_and_rejects_zero() {
    let input = VecNumbers(vec![100, 5, 2]);
    assert_eq!(Divider::call(input).unwrap(), 10);
    let err = Divider::call(VecNumbers(vec![1, 0])).unwrap_err();
    assert_eq!(err.error_kind(), ErrorKind::Generic);
}

#[test]
fn conversion_rejects_non_numbers() {
    match Adder::in_convert(vec![Value::BoolV(true)]) {
        Err(err) => assert_eq!(err.error_kind(), ErrorKind::TypeMismatch),
        Ok(_) => panic!("conversion should fail"),
    }
}

#[test]
fn cons_car_cdr() {
    let pair = apply_prim(Prim::Cons, vec![Value::IntV(1), Value::IntV(2)]).unwrap();
    let h = apply_prim(Prim::Car, vec![pair]).unwrap();
    assert!(matches!(h, Value::IntV(1)));
    let err = apply_prim(Prim::Car, vec![Value::IntV(1)]).unwrap_err();
    assert_eq!(err.error_kind(), ErrorKind::TypeMismatch);
}

#[test]
fn list_and_null() {
    let l = make_list(vec![Value::IntV(1)]);
    let is_null = apply_prim(Prim::IsNull, vec![l]).unwrap();
    assert!(matches!(is_null, Value::BoolV(false)));
    let empty = make_list(vec![]);
    let is_null2 = apply_prim(Prim::IsNull, vec![empty]).unwrap();
    assert!(matches!(is_null2, Value::BoolV(true)));
}
