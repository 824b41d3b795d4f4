use katas::zero_kata::{closest_to_zero, closest_to_zero_mins, is_at_least_as_close};

#[test]
fn closest_to_zero_simple() {
    let numbers = vec![0];

    assert_eq!(*closest_to_zero(&numbers).unwrap(), 0)
}

#[test]
fn must_choose_lowest_positive_integer() {
    let numbers = vec![2, 1, 3];

    assert_eq!(1, *closest_to_zero(&numbers).unwrap())
}

#[test]
fn must_choose_closer_negative() {
    let numbers = vec![2, -1, -3];

    assert_eq!(*closest_to_zero(&numbers).unwrap(), -1)
}

#[test]
fn same_magnitude_positive_must_be_chosen() {
    let numbers = vec![2, -1, 1];

    assert_eq!(*closest_to_zero(&numbers).unwrap(), 1)
}

#[test]
fn empty_input_is_an_error() {
    let numbers: Vec<i32> = vec![];
    assert!(closest_to_zero(&numbers).is_none());
    assert!(closest_to_zero_mins(&numbers).is_none());
}

#[test]
fn positive_wins_tie_in_any_order() {
    assert_eq!(*closest_to_zero(&vec![1, -1]).unwrap(), 1);
    assert_eq!(*closest_to_zero(&vec![-1, 1]).unwrap(), 1);
    assert_eq!(*closest_to_zero(&vec![5, -4, 4, -4, 9]).unwrap(), 4);
}

#[test]
fn result_does_not_depend_on_order() {
    let a = vec![7, -3, 12, 3, -8];
    let b = vec![3, -8, 7, 12, -3];
    let c = vec![-8, 12, -3, 3, 7];
    assert_eq!(*closest_to_zero(&a).unwrap(), 3);
    assert_eq!(*closest_to_zero(&b).unwrap(), 3);
    assert_eq!(*closest_to_zero(&c).unwrap(), 3);
}

#[test]
fn positive_after_closer_negative_is_not_chosen() {
    assert_eq!(*closest_to_zero(&vec![-2, 5]).unwrap(), -2);
    assert_eq!(*closest_to_zero(&vec![-2, 1]).unwrap(), 1);
}

#[test]
fn extreme_values() {
    assert_eq!(*closest_to_zero(&vec![i32::MIN, i32::MAX]).unwrap(), i32::MAX);
    assert_eq!(*closest_to_zero(&vec![i32::MIN]).unwrap(), i32::MIN);
    assert_eq!(*closest_to_zero_mins(&vec![i32::MAX, i32::MIN]).unwrap(), i32::MAX);
}

#[test]
fn duplicates_and_all_negative() {
    assert_eq!(*closest_to_zero(&vec![-5, -5, -9]).unwrap(), -5);
    assert_eq!(*closest_to_zero_mins(&vec![-5, -5, -9]).unwrap(), -5);
}

#[test]
fn mins_agrees_on_examples() {
    assert_eq!(*closest_to_zero_mins(&vec![0]).unwrap(), 0);
    assert_eq!(*closest_to_zero_mins(&vec![2, 1, 3]).unwrap(), 1);
    assert_eq!(*closest_to_zero_mins(&vec![2, -1, -3]).unwrap(), -1);
    assert_eq!(*closest_to_zero_mins(&vec![2, -1, 1]).unwrap(), 1);
    assert_eq!(*closest_to_zero_mins(&vec![-1, 2]).unwrap(), -1);
}

#[test]
fn comparator_orders_by_distance_then_sign() {
    assert!(is_at_least_as_close(1, -2));
    assert!(!is_at_least_as_close(-2, 1));
    assert!(is_at_least_as_close(3, -3));
    assert!(!is_at_least_as_close(-3, 3));
    assert!(is_at_least_as_close(-3, -3));
    assert!(is_at_least_as_close(i32::MAX, i32::MIN));
}
