use seq_basics::sorting::{sort, sorted};

#[test]
fn sort_example() {
    let mut s = vec![3, 1, 4, 1, 5];
    sort(&mut s);
    assert_eq!(s, vec![1, 1, 3, 4, 5]);
}

#[test]
fn sort_empty_and_single() {
    let mut e: Vec<i32> = vec![];
    sort(&mut e);
    assert_eq!(e, Vec::<i32>::new());
    let mut one = vec![42];
    sort(&mut one);
    assert_eq!(one, vec![42]);
}

#[test]
fn sort_reversed_input() {
    let mut s = vec![9, 7, 5, 3, 1, -1];
    sort(&mut s);
    assert_eq!(s, vec![-1, 1, 3, 5, 7, 9]);
}

#[test]
fn sort_two_elements() {
    let mut s = vec![2, 1];
    sort(&mut s);
    assert_eq!(s, vec![1, 2]);
    let mut t = vec![1, 2];
    sort(&mut t);
    assert_eq!(t, vec![1, 2]);
}

#[test]
fn sort_keeps_sorted_input() {
    let mut s = vec![1, 1, 3, 4, 5];
    sort(&mut s);
    assert_eq!(s, vec![1, 1, 3, 4, 5]);
}

#[test]
fn sort_twice_is_sort_once() {
    let mut once = vec![10, -3, 7, 7, 0, 2, -3, 8];
    sort(&mut once);
    let mut twice = once.clone();
    sort(&mut twice);
    assert_eq!(twice, once);
}

#[test]
fn sort_gives_a_sorted_permutation() {
    let input = vec![10, -3, 7, 7, 0, 2, -3, 8, i32::MAX, i32::MIN];
    let mut s = input.clone();
    sort(&mut s);
    assert!(sorted(&s));
    assert_eq!(s.len(), input.len());
    for x in input.iter() {
        let before = input.iter().filter(|y| *y == x).count();
        let after = s.iter().filter(|y| *y == x).count();
        assert_eq!(before, after);
    }
    let mut expected = input.clone();
    expected.sort();
    assert_eq!(s, expected);
}

#[test]
fn sort_part_of_a_vector() {
    let mut s = vec![9, 3, 2, 1, 0];
    sort(&mut s[1..4]);
    assert_eq!(s, vec![9, 1, 2, 3, 0]);
}

#[test]
fn sort_other_element_types() {
    let mut bytes: Vec<u8> = vec![200, 3, 255, 0, 3];
    sort(&mut bytes);
    assert_eq!(bytes, vec![0, 3, 3, 200, 255]);
    let mut wide: Vec<i64> = vec![5_000_000_000, -5_000_000_000, 0];
    sort(&mut wide);
    assert_eq!(wide, vec![-5_000_000_000, 0, 5_000_000_000]);
}

#[test]
fn sorted_accepts_non_decreasing() {
    assert!(sorted(&[1, 1, 3, 4, 5]));
    assert!(sorted(&[2, 2, 2]));
    assert!(sorted(&[-5, 0, 5]));
}

#[test]
fn sorted_accepts_empty_and_single() {
    let e: [i32; 0] = [];
    assert!(sorted(&e));
    assert!(sorted(&[7]));
}

#[test]
fn sorted_rejects_a_descending_pair() {
    assert!(!sorted(&[3, 1, 4, 1, 5]));
    assert!(!sorted(&[1, 2, 3, 2]));
    assert!(!sorted(&[2, 1]));
}

#[test]
fn sorted_is_about_adjacent_pairs() {
    let s = [4, 8, 8, 15, 16, 23, 42];
    let adjacent = s.windows(2).all(|w| w[0] <= w[1]);
    assert_eq!(sorted(&s), adjacent);
    let t = [4, 8, 7, 15];
    let adjacent = t.windows(2).all(|w| w[0] <= w[1]);
    assert_eq!(sorted(&t), adjacent);
}
