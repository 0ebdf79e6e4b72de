use staged_mrsc::graph::{
    back, bad_graph, build, cl_bad_conf, cl_empty, cl_empty_and_bad, cl_min_size, empty,
    fl_bad_conf, forth, graph_pretty_printer, graph_size, stop, unroll, Graph, LazyGraph,
};
use std::rc::Rc;

type IGraph = Graph<isize>;
type ILazyGraph = LazyGraph<isize>;

fn bad_i(c: &isize) -> bool {
    *c < 0
}

fn g1() -> Rc<IGraph> {
    forth(&1, &[back(&1), forth(&2, &[back(&1), back(&2)])])
}

#[test]
fn test_graph_pretty_printer() {
    assert_eq!(
        graph_pretty_printer(&g1()),
        "|__1\n  |\n  |__1*\n  |\n  |__2\n    |\n    |__1*\n    |\n    |__2*"
    );
}

fn g_bad_forth() -> Rc<IGraph> {
    forth(&1, &[back(&1), forth(&-2, &[back(&3), back(&4)])])
}

fn g_bad_back() -> Rc<IGraph> {
    forth(&1, &[back(&1), forth(&2, &[back(&3), back(&-4)])])
}

fn l2() -> Rc<ILazyGraph> {
    build(
        &1,
        &[
            vec![build(&2, &[vec![stop(&1), stop(&2)]])],
            vec![build(&3, &[vec![stop(&3), stop(&1)]])],
        ],
    )
}

fn gs2() -> Vec<Rc<IGraph>> {
    vec![
        forth(&1, &[forth(&2, &[back(&1), back(&2)])]),
        forth(&1, &[forth(&3, &[back(&3), back(&1)])]),
    ]
}

fn l_empty() -> Rc<ILazyGraph> {
    build(
        &1,
        &[vec![stop(&2)], vec![build(&3, &[vec![stop(&4), empty()]])]],
    )
}

#[test]
fn test_unroll() {
    assert_eq!(unroll(&l2()), gs2());
}

#[test]
fn test_bad_graph() {
    assert!(!bad_graph(bad_i, &g1()));
    assert!(bad_graph(bad_i, &g_bad_forth()));
    assert!(bad_graph(bad_i, &g_bad_back()));
}

#[test]
fn test_cl_empty() {
    assert_eq!(cl_empty(&l_empty()), build(&1, &[vec![stop(&2)]]));
}

fn l_bad_stop() -> Rc<ILazyGraph> {
    build(
        &1,
        &[vec![stop(&1), build(&2, &[vec![stop(&3), stop(&-4)]])]],
    )
}

fn l_bad_build() -> Rc<ILazyGraph> {
    build(
        &1,
        &[vec![stop(&1), build(&-2, &[vec![stop(&3), stop(&4)]])]],
    )
}

#[test]
fn test_cl_bad_conf() {
    assert_eq!(
        cl_bad_conf(bad_i, &l_bad_stop()),
        build(&1, &[vec![stop(&1), build(&2, &[vec![stop(&3), empty()]])]])
    );
    assert_eq!(
        cl_bad_conf(bad_i, &l_bad_build()),
        build(&1, &[vec![stop(&1), empty()]])
    );
}

#[test]
fn test_cl_empty_and_bad() {
    assert_eq!(cl_empty_and_bad(bad_i, &l_bad_stop()), empty());
    assert_eq!(cl_empty_and_bad(bad_i, &l_bad_build()), empty());
}

#[test]
fn test_graph_size() {
    assert_eq!(graph_size(&g1()), 5);
}

fn l3() -> Rc<ILazyGraph> {
    build(
        &1,
        &[
            vec![build(&2, &[vec![stop(&1), stop(&2)]])],
            vec![build(&3, &[vec![stop(&4)]])],
        ],
    )
}

#[test]
fn test_cl_min_size() {
    assert_eq!(
        cl_min_size(&l3()),
        build(&1, &[vec![build(&3, &[vec![stop(&4)]])]])
    )
}

#[test]
fn test_cl_min_size_unroll() {
    let min_l = cl_min_size(&l3());
    let min_g = unroll(&min_l)[0].clone();
    assert_eq!(min_g, forth(&1, &[forth(&3, &[back(&4)])]));
}

#[test]
fn cl_empty_is_idempotent_and_keeps_the_graphs() {
    let once = cl_empty(&l_empty());
    let twice = cl_empty(&once);
    assert_eq!(once, twice);
    assert_eq!(unroll(&once), unroll(&l_empty()));
}

#[test]
fn cl_empty_of_a_build_without_alternatives_is_empty() {
    let l = build(&1, &[]);
    assert_eq!(cl_empty(&l), empty());
    assert!(unroll(&l).is_empty());
}

#[test]
fn bad_conf_cleaner_agrees_with_the_filter() {
    let l = build(
        &1,
        &[
            vec![stop(&1), build(&2, &[vec![stop(&3)], vec![stop(&-4)]])],
            vec![build(&-5, &[vec![stop(&6)]])],
            vec![stop(&7)],
        ],
    );
    let filtered = fl_bad_conf(bad_i, unroll(&l));
    let cleaned = unroll(&cl_bad_conf(bad_i, &l));
    assert_eq!(cleaned, filtered);
    assert_eq!(
        filtered,
        vec![
            forth(&1, &[back(&1), forth(&2, &[back(&3)])]),
            forth(&1, &[back(&7)]),
        ]
    );
    assert_eq!(unroll(&cl_empty_and_bad(bad_i, &l)), filtered);
}

#[test]
fn min_size_keeps_the_first_of_equal_alternatives() {
    let l = build(&1, &[vec![stop(&2)], vec![stop(&3)]]);
    assert_eq!(cl_min_size(&l), build(&1, &[vec![stop(&2)]]));
}

#[test]
fn min_size_of_nothing_is_empty() {
    let l = build(&1, &[vec![stop(&2), empty()]]);
    assert_eq!(cl_min_size(&l), empty());
    assert_eq!(cl_min_size(&empty::<isize>()), empty());
}

#[test]
fn unroll_of_stop_and_empty() {
    assert_eq!(unroll(&stop(&9)), vec![back(&9)]);
    assert!(unroll(&empty::<isize>()).is_empty());
}

#[test]
fn pretty_printer_of_a_back_node() {
    assert_eq!(graph_pretty_printer(&back(&-12)), "|__-12*");
}
