use staged_mrsc::big_step_sc::{lazy_mrsc, naive_mrsc};
use staged_mrsc::graph::{back, cl_min_size, forth, unroll, Graph, Gs, LazyGraph};
use std::rc::Rc;

fn gs3() -> Vec<Rc<Graph<isize>>> {
    vec![
        forth(&0, &[forth(&1, &[forth(&2, &[back(&0), back(&1)])])]),
        forth(&0, &[forth(&1, &[forth(&2, &[back(&1)])])]),
        forth(
            &0,
            &[forth(&1, &[forth(&2, &[forth(&3, &[back(&0), back(&2)])])])],
        ),
        forth(&0, &[forth(&1, &[forth(&2, &[forth(&3, &[back(&2)])])])]),
    ]
}

fn naive_mrsc_isize(c: isize) -> Gs<isize> {
    naive_mrsc(&0isize, c)
}

fn lazy_mrsc_isize(c: isize) -> Rc<LazyGraph<isize>> {
    lazy_mrsc(&0isize, c)
}

#[test]
fn test_naive_mrsc() {
    assert_eq!(naive_mrsc_isize(0), gs3())
}

#[test]
fn test_unroll_lazy_mrsc() {
    assert_eq!(unroll(&lazy_mrsc_isize(0)), gs3());
}

#[test]
fn test_min_size_cl() {
    assert_eq!(
        unroll(&cl_min_size(&lazy_mrsc_isize(0))),
        [forth(&0, &[forth(&1, &[forth(&2, &[back(&1)])])])]
    );
}

#[test]
fn lazy_and_naive_agree_from_other_starts() {
    for c in [1isize, 2, 3, 5, -1] {
        assert_eq!(unroll(&lazy_mrsc_isize(c)), naive_mrsc_isize(c));
    }
}
