use seq_basics::linear::{find, find_max, maximum, maximum_is_unique};

#[test]
fn maximum_of_example() {
    assert_eq!(maximum(vec![3, 1, 4, 1, 5]), 5);
}

#[test]
fn maximum_of_single_element() {
    assert_eq!(maximum(vec![7]), 7);
    assert_eq!(maximum(vec![i32::MIN]), i32::MIN);
}

#[test]
fn maximum_when_first_or_in_the_middle() {
    assert_eq!(maximum(vec![9, 1, 4]), 9);
    assert_eq!(maximum(vec![1, 9, 4]), 9);
}

#[test]
fn maximum_of_negatives_and_extremes() {
    assert_eq!(maximum(vec![-3, -1, -4]), -1);
    assert_eq!(maximum(vec![i32::MIN, i32::MAX, 0]), i32::MAX);
    assert_eq!(maximum(vec![2, 2, 2]), 2);
}

#[test]
fn maximum_bounds_every_element_and_is_one_of_them() {
    let s = vec![12, -7, 30, 30, 5, 0, 29];
    let m = maximum(s.clone());
    assert!(s.iter().all(|x| *x <= m));
    assert!(s.iter().any(|x| *x == m));
}

#[test]
fn maximum_is_unique_when_attained_once() {
    assert!(maximum_is_unique(5, vec![3, 1, 4, 1, 5]));
    assert!(maximum_is_unique(7, vec![7]));
}

#[test]
fn maximum_is_not_unique_when_attained_twice() {
    assert!(!maximum_is_unique(5, vec![5, 1, 5]));
    assert!(!maximum_is_unique(2, vec![2, 2, 2]));
}

#[test]
fn maximum_is_not_unique_when_never_attained() {
    assert!(!maximum_is_unique(9, vec![3, 1, 4]));
    assert!(!maximum_is_unique(0, vec![]));
}

#[test]
fn maximum_is_unique_counts_any_value() {
    // The value need not be the greatest element.
    assert!(maximum_is_unique(3, vec![3, 1, 4, 1, 5]));
    assert!(!maximum_is_unique(1, vec![3, 1, 4, 1, 5]));
}

#[test]
fn find_returns_the_first_position() {
    assert_eq!(find(vec![3, 1, 4, 1, 5], 3), 0);
    assert_eq!(find(vec![3, 1, 4, 1, 5], 1), 1);
    assert_eq!(find(vec![3, 1, 4, 1, 5], 4), 2);
    assert_eq!(find(vec![3, 1, 4, 1, 5], 5), 4);
}

#[test]
fn find_returns_the_length_when_absent() {
    assert_eq!(find(vec![3, 1, 4, 1, 5], 2), 5);
    assert_eq!(find(vec![], 2), 0);
}

#[test]
fn find_result_holds_the_key_or_key_is_absent() {
    let s = vec![8, -2, 8, 0, 13, -2];
    for key in -3..15 {
        let i = find(s.clone(), key);
        if i < s.len() {
            assert_eq!(s[i], key);
            assert!(s[..i].iter().all(|x| *x != key));
        } else {
            assert_eq!(i, s.len());
            assert!(!s.contains(&key));
        }
    }
}

#[test]
fn find_max_of_example() {
    assert_eq!(find_max(vec![3, 1, 4, 1, 5]), 4);
}

#[test]
fn find_max_takes_the_first_of_equals() {
    assert_eq!(find_max(vec![3, 5, 4, 1, 5]), 1);
    assert_eq!(find_max(vec![2, 2, 2]), 0);
}

#[test]
fn find_max_of_single_element() {
    assert_eq!(find_max(vec![-4]), 0);
}

#[test]
fn find_max_points_at_an_upper_bound() {
    let s = vec![12, -7, 30, 30, 5, 0, 29];
    let i = find_max(s.clone());
    assert!(i < s.len());
    assert!(s.iter().all(|x| *x <= s[i]));
    assert_eq!(s[i], maximum(s.clone()));
}
