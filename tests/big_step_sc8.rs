use staged_mrsc::big_step_sc::lazy_mrsc;
use staged_mrsc::big_step_sc8::{build_graph8, prune, prune_graph8, LazyGraph8};
use staged_mrsc::graph::unroll;

fn world() -> &'static isize {
    Box::leak(Box::new(0isize))
}

#[test]
fn prune_of_build_graph8_is_lazy_mrsc() {
    for c in [0isize, 1, 2, 3] {
        let s = world();
        let l8 = build_graph8(s, &c);
        assert_eq!(prune_graph8(s, &l8), lazy_mrsc(s, c));
    }
}

#[test]
fn fused_prune_keeps_the_graphs() {
    for c in [0isize, 2, 4] {
        let s = world();
        let l8 = build_graph8(s, &c);
        assert_eq!(unroll(&prune(s, &l8)), unroll(&lazy_mrsc(s, c)));
    }
}

#[test]
fn build_graph8_root_is_a_build_node() {
    let s = world();
    let l8 = build_graph8(s, &5isize);
    assert!(matches!(&*l8, LazyGraph8::Build8(c, _) if *c == 5));
}
