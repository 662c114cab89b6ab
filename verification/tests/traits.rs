use crow_util::traits::{GetTwo, RetainMut};

#[test]
fn retain_mut_rewrites_then_filters() {
    let mut vec = vec![0, 1, 2, 3, 4, 5];
    RetainMut::retain_mut(&mut vec, |x: i32| (x + 1, (x + 1) % 2 == 0));
    assert_eq!(vec, [2, 4, 6]);
}

#[test]
fn retain_mut_keeps_order_of_kept_elements() {
    let mut vec = vec![9, 2, 7, 4, 5];
    RetainMut::retain_mut(&mut vec, |x: i32| (x, x % 2 == 0));
    assert_eq!(vec, [2, 4]);
}

#[test]
fn retain_mut_can_drop_everything() {
    let mut vec = vec![1, 2, 3];
    RetainMut::retain_mut(&mut vec, |x: i32| (x, false));
    assert!(vec.is_empty());
}

#[test]
fn retain_mut_on_empty() {
    let mut vec: Vec<i32> = Vec::new();
    RetainMut::retain_mut(&mut vec, |x: i32| (x, true));
    assert!(vec.is_empty());
}

#[test]
fn get_two_distinct_indices() {
    let mut x = vec![0, 1, 2, 3, 4, 5];
    assert_eq!(x.get_two(0, 3), Some((&mut 0, &mut 3)));
    assert_eq!(x.get_two(1, 1), None);
}

#[test]
fn get_two_out_of_bounds_is_none() {
    let mut x = vec![0, 1, 2];
    assert_eq!(x.get_two(0, 3), None);
    assert_eq!(x.get_two(7, 1), None);
}

#[test]
fn get_two_writes_are_visible() {
    let mut x = vec![10, 20, 30, 40];
    if let Some((a, b)) = x.get_two(3, 1) {
        *a = 44;
        *b = 22;
    } else {
        panic!("distinct in-bounds indices must succeed");
    }
    assert_eq!(x, [10, 22, 30, 44]);
}

#[test]
fn get_two_unchecked_borrows_both() {
    let mut x = vec![0, 1, 2, 3, 4, 5];
    assert_eq!(x.get_two_unchecked(0, 3), (&mut 0, &mut 3));
    let (a, b) = x.get_two_unchecked(5, 2);
    *a = 50;
    *b = 20;
    assert_eq!(x, [0, 1, 20, 3, 4, 50]);
}
