use staged_mrsc::misc::History::{Cons, Nil};
use staged_mrsc::misc::{cartesian, History};
use std::rc::Rc;

#[test]
fn test_list_ok() {
    let l1: History<usize> = History::new();
    let l2 = l1.cons(3).cons(2).cons(1);

    assert_eq!(
        l2,
        Cons(1, Rc::new(Cons(2, Rc::new(Cons(3, Rc::new(Nil))))))
    );

    assert!(l2.any(|&t| t == 2));
    assert!(!l2.any(|&t| t == 5));
}

#[test]
fn test_cartesian() {
    let xs = vec![1, 2];
    let ys = vec![10, 20, 30];
    let zs = vec![100, 200];
    let vss = vec![xs.clone(), ys.clone(), zs.clone()];
    let rss = [
        [1, 10, 100],
        [1, 10, 200],
        [1, 20, 100],
        [1, 20, 200],
        [1, 30, 100],
        [1, 30, 200],
        [2, 10, 100],
        [2, 10, 200],
        [2, 20, 100],
        [2, 20, 200],
        [2, 30, 100],
        [2, 30, 200],
    ];
    let xs0zs = vec![xs.clone(), vec![], zs.clone()];
    let zzs: Vec<Vec<isize>> = vec![];

    assert_eq!(cartesian(&vss), &rss);
    assert_eq!(cartesian(&xs0zs), &[[0]; 0]);
    assert_eq!(cartesian(&zzs), &[[0; 0]; 1]);
}

#[test]
fn cartesian_of_one_list_is_singletons() {
    let r = cartesian(&vec![vec![7, 8, 9]]);
    assert_eq!(r, vec![vec![7], vec![8], vec![9]]);
}

#[test]
fn cartesian_with_a_trailing_empty_list_is_empty() {
    let r = cartesian(&vec![vec![1, 2], vec![3], vec![]]);
    assert!(r.is_empty());
}

#[test]
fn history_length_and_sharing() {
    let h0: History<isize> = History::new();
    let h1 = h0.cons(5);
    let h2 = h1.cons(6);
    let h3 = h1.cons(7);
    assert_eq!(h0.length(), 0);
    assert_eq!(h1.length(), 1);
    assert_eq!(h2.length(), 2);
    assert_eq!(h3.length(), 2);
    assert!(h2.any(|&c| c == 6));
    assert!(!h3.any(|&c| c == 6));
    assert!(h3.any(|&c| c == 5));
}
