use staged_mrsc::big_step_sc::{lazy_mrsc, naive_mrsc, ScWorld};
use staged_mrsc::counters::NW::{N, W};
use staged_mrsc::counters::{is_in, mk_nwc, CountersScWorld, CountersWorld, Omega, NW, NWC};
use staged_mrsc::graph::{back, cl_min_size, forth, unroll, Graph};
use std::rc::Rc;

#[test]
fn test_nw_add() {
    assert_eq!(N(1) + N(2), N(3));
    assert_eq!(N(3) + W(), W());
    assert_eq!(N(3) + 25, N(28));
}

#[test]
fn test_nw_cmp() {
    assert!(N(2) >= 1);
    assert!(N(2) >= 2);
    assert!(!(N(1) >= 2));
    assert!(W() >= 1);
    assert!(N(2) == N(2));
    assert!(N(2) == 2);
    assert!(W() == 2);
}

#[test]
fn test_is_in() {
    assert!(is_in(&N(2), &N(2)));
    assert!(!(is_in(&N(2), &N(3))));
    assert!(is_in(&N(2), &W()));
    assert!(is_in(&W(), &W()));
    assert!(!(is_in(&W(), &N(3))));
}

#[test]
fn test_into_nw() {
    let nw25 = NW::from(25);
    assert_eq!(nw25, N(25));
    let nw30 = {
        let _tmp: NW = 30.into();
        _tmp
    };
    assert_eq!(nw30, N(30));
    let w1 = NW::from(Omega);
    assert_eq!(w1, W());
    let w2 = {
        let _tmp: NW = Omega.into();
        _tmp
    };
    assert_eq!(w2, W());
}

#[test]
fn test_nwc() {
    let i = N(10);
    assert_eq!(
        format!(
            "{:?}",
            mk_nwc(&[NW::from(25 + 1), NW::from(Omega), i + 1])
        ),
        "NWC([N(26), W, N(11)])"
    );
    assert_eq!(format!("{:?}", mk_nwc(&[])), "NWC([])");
}

#[test]
fn test_display_nwc() {
    assert_eq!(
        mk_nwc(&[NW::from(1), NW::from(Omega), NW::from(2)]).to_string(),
        "(1,ω,2)"
    );
    assert_eq!(mk_nwc(&[]).to_string(), "()");
}

#[derive(Debug)]
struct TestCW;

impl CountersWorld for TestCW {
    fn start() -> NWC {
        mk_nwc(&[NW::from(2), NW::from(0)])
    }

    fn rules(c: &NWC) -> Vec<(bool, NWC)> {
        let i = c.0[0];
        let j = c.0[1];
        vec![
            (i >= 1, mk_nwc(&[i - 1, j + 1])),
            (j >= 1, mk_nwc(&[i + 1, j - 1])),
        ]
    }

    fn is_unsafe(_c: &NWC) -> bool {
        false
    }
}

fn ww() -> NWC {
    mk_nwc(&[W(), W()])
}

fn mg() -> Rc<Graph<NWC>> {
    forth(
        &mk_nwc(&[N(2), N(0)]),
        &[forth(&ww(), &[back(&ww()), back(&ww())])],
    )
}

#[test]
fn test_counters_sc_world() {
    let s = CountersScWorld::new(TestCW, 3, 10);
    let start_conf = TestCW::start();
    let gs = naive_mrsc(&s, start_conf.clone());
    let l = lazy_mrsc(&s, start_conf);
    assert_eq!(unroll(&l), gs);
    let ml = cl_min_size(&l);
    assert_eq!(&unroll(&ml)[0], &mg());
}

#[test]
fn nw_subtraction_and_text() {
    assert_eq!(N(5) - N(7), N(-2));
    assert_eq!(W() - 3, W());
    assert_eq!(N(5) - W(), W());
    assert_eq!(N(-40).to_string(), "-40");
    assert_eq!(W().to_string(), "ω");
    assert!(N(1) < 2);
    assert!(!(W() < 2));
}

#[test]
fn drive_keeps_the_rules_whose_guards_hold() {
    let rs = vec![
        (true, mk_nwc(&[N(1), W()])),
        (false, mk_nwc(&[N(2)])),
        (true, mk_nwc(&[])),
    ];
    let cs = staged_mrsc::counters::drive_rules(&rs);
    assert_eq!(cs, vec![mk_nwc(&[N(1), W()]), mk_nwc(&[])]);
}

#[test]
fn counters_world_folds_componentwise() {
    let s = CountersScWorld::new(TestCW, 3, 10);
    assert!(s.is_foldable_to(&mk_nwc(&[N(1), N(2)]), &mk_nwc(&[N(1), W()])));
    assert!(!s.is_foldable_to(&mk_nwc(&[W(), N(2)]), &mk_nwc(&[N(1), W()])));
    let h = staged_mrsc::misc::History::new().cons(mk_nwc(&[N(3), N(0)]));
    assert!(s.is_dangerous(&h));
    let h2 = staged_mrsc::misc::History::new().cons(mk_nwc(&[N(2), N(0)]));
    assert!(!s.is_dangerous(&h2));
}
