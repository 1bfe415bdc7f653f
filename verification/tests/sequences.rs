use stracer::sequences::{fibonacci, filter, sum, unique};

#[test]
fn sum_tests() {
    let slice = [1, 2, 3, 4, 5];
    assert_eq!(sum(&slice), 15);
    assert_eq!(sum(&slice[0..3]), 6);
    assert_eq!(sum(&slice[2..3]), 3);
}

#[test]
fn sum_of_nothing_is_zero() {
    let slice: [i32; 0] = [];
    assert_eq!(sum(&slice), 0);
}

#[test]
fn sum_reaches_the_bounds() {
    assert_eq!(sum(&[i32::MAX - 1, 1]), i32::MAX);
    assert_eq!(sum(&[i32::MIN + 5, -5, 7]), i32::MIN + 7);
}

#[test]
fn unique_tests() {
    let vs = vec![1, 3, 4, 5, 6, 5, 3, 7];
    assert_eq!(unique(&vs), vec![1, 3, 4, 5, 6, 7]);
}

#[test]
fn unique_keeps_first_occurrences() {
    assert_eq!(unique(&vec![2, 2, 2]), vec![2]);
    assert_eq!(unique(&vec![3, 1, 3, 1, 2]), vec![3, 1, 2]);
    assert_eq!(unique(&Vec::new()), Vec::<i32>::new());
}

#[test]
fn filter_tests() {
    assert_eq!(filter(&vec![1, 2, 3, 4, 5, 6], &|n| n % 2 == 0), vec![2, 4, 6]);
}

#[test]
fn filter_keeps_order_and_repeats() {
    assert_eq!(filter(&vec![5, -1, 5, 0, -7], &|n| n != 0), vec![5, -1, 5, -7]);
    assert_eq!(filter(&vec![1, 2, 3], &|_| false), Vec::<i32>::new());
    assert_eq!(filter(&vec![1, 2, 3], &|_| true), vec![1, 2, 3]);
}

#[test]
fn fibonacci_tests() {
    assert_eq!(fibonacci(1, 1, 1), vec![1]);
    assert_eq!(fibonacci(1, 1, 2), vec![1, 1]);
    assert_eq!(fibonacci(1, 1, 4), vec![1, 1, 2, 3]);
    assert_eq!(fibonacci(10, 12, 3), vec![10, 12, 22]);
}

#[test]
fn fibonacci_of_none_gives_the_two_starts() {
    assert_eq!(fibonacci(4, 9, 0), vec![4, 9]);
}

#[test]
fn fibonacci_with_negative_starts() {
    assert_eq!(fibonacci(-1, 1, 6), vec![-1, 1, 0, 1, 1, 2]);
}
