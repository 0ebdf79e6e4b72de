use staged_mrsc::big_step_sc::lazy_mrsc;
use staged_mrsc::graph::{build, empty, graph_size, stop, unroll, LazyGraph};
use staged_mrsc::statistics::{length_unroll, size_unroll};
use std::rc::Rc;

fn lazy_mrsc_isize(c: isize) -> Rc<LazyGraph<isize>> {
    lazy_mrsc(&0isize, c)
}

#[test]
fn test_statistics_length_unroll() {
    let l = lazy_mrsc_isize(0isize);
    let gs = unroll(&l);

    assert_eq!(length_unroll(&l), gs.len());
    assert_eq!(
        size_unroll(&l),
        (gs.len(), gs.iter().map(|g| graph_size(g)).sum::<usize>())
    );
}

#[test]
fn statistics_of_a_small_lazy_graph() {
    let l = build(
        &1,
        &[
            vec![build(&2, &[vec![stop(&1), stop(&2)]]), stop(&5)],
            vec![build(&3, &[vec![stop(&4)], vec![stop(&6)]])],
        ],
    );
    assert_eq!(length_unroll(&l), 3);
    assert_eq!(size_unroll(&l), (3, 5 + 3 + 3));
    let gs = unroll(&l);
    assert_eq!(gs.len(), 3);
    assert_eq!(gs.iter().map(|g| graph_size(g)).sum::<usize>(), 11);
}

#[test]
fn statistics_with_an_empty_child() {
    let l = build(&1, &[vec![stop(&2), empty()], vec![stop(&3)]]);
    assert_eq!(length_unroll(&l), 1);
    assert_eq!(size_unroll(&l), (1, 2));
    assert_eq!(length_unroll(&empty::<isize>()), 0);
    assert_eq!(size_unroll(&empty::<isize>()), (0, 0));
}
