//! Graphs of configurations, lazy graphs that stand for sets of them, the
//! interpreter `unroll`, and the cleaners and filters over both.
use std::rc::Rc;
use vstd::prelude::*;

use crate::misc::{
    all_of, cart, cartesian_rc, clone_exact, concat_all, lemma_cart_filter, lemma_cart_map,
    lemma_cart_with_empty, lemma_filter_concat_all, lemma_filter_map,
    lemma_concat_all_push, lemma_concat_all_take,
    all_set, lemma_sum_nat_prefix, lemma_sum_nat_take, pred_of, prod_nat, pure_pred, sum_nat, vv,
};
use crate::statistics::total_size;

verus! {

broadcast use vstd::std_specs::vec::group_vec_axioms, vstd::seq_lib::group_seq_properties;

/// A residual graph: `Back(c)` folds `c` to some ancestor, `Forth(c, gs)`
/// develops `c` into the children `gs`.
#[derive(Clone, PartialEq, Debug)]
pub enum Graph<C> {
    Back(C),
    Forth(C, Gs<C>),
}

pub type Gs<C> = Vec<Rc<Graph<C>>>;

/// A finite lazy graph: a program whose result is a list of graphs.
#[derive(Clone, PartialEq, Debug)]
pub enum LazyGraph<C> {
    Empty(),
    Stop(C),
    Build(C, Vec<Ls<C>>),
}

pub type Ls<C> = Vec<Rc<LazyGraph<C>>>;

/// The mathematical value of a `Graph`.
pub enum GraphV<C> {
    Back(C),
    Forth(C, Seq<GraphV<C>>),
}

/// The mathematical value of a `LazyGraph`.
pub enum LazyGraphV<C> {
    Empty,
    Stop(C),
    Build(C, Seq<Seq<LazyGraphV<C>>>),
}

pub open spec fn graph_view<C>(g: Graph<C>) -> GraphV<C>
    decreases g,
{
    match g {
        Graph::Back(c) => GraphV::Back(c),
        Graph::Forth(c, gs) => GraphV::Forth(
            c,
            Seq::new(
                gs.len() as nat,
                |i: int|
                    if 0 <= i < gs.len() {
                        graph_view(*gs[i])
                    } else {
                        GraphV::Back(c)
                    },
            ),
        ),
    }
}

pub open spec fn lazy_view<C>(l: LazyGraph<C>) -> LazyGraphV<C>
    decreases l,
{
    match l {
        LazyGraph::Empty() => LazyGraphV::Empty,
        LazyGraph::Stop(c) => LazyGraphV::Stop(c),
        LazyGraph::Build(c, lss) => LazyGraphV::Build(
            c,
            Seq::new(
                lss.len() as nat,
                |i: int|
                    if 0 <= i < lss.len() {
                        Seq::new(
                            lss[i].len() as nat,
                            |j: int|
                                if 0 <= j < lss[i].len() {
                                    lazy_view(*lss[i][j])
                                } else {
                                    LazyGraphV::Empty
                                },
                        )
                    } else {
                        Seq::empty()
                    },
            ),
        ),
    }
}

impl<C> View for Graph<C> {
    type V = GraphV<C>;

    open spec fn view(&self) -> GraphV<C> {
        graph_view(*self)
    }
}

impl<C> View for LazyGraph<C> {
    type V = LazyGraphV<C>;

    open spec fn view(&self) -> LazyGraphV<C> {
        lazy_view(*self)
    }
}

/// The values of a list of shared graphs.
pub open spec fn gsv<C>(gs: Seq<Rc<Graph<C>>>) -> Seq<GraphV<C>> {
    gs.map_values(|g: Rc<Graph<C>>| graph_view(*g))
}

/// The values of a list of shared lazy graphs.
pub open spec fn lsv<C>(ls: Seq<Rc<LazyGraph<C>>>) -> Seq<LazyGraphV<C>> {
    ls.map_values(|l: Rc<LazyGraph<C>>| lazy_view(*l))
}

/// The values of a list of alternatives.
pub open spec fn lssv<C>(lss: Seq<Ls<C>>) -> Seq<Seq<LazyGraphV<C>>> {
    lss.map_values(|ls: Ls<C>| lsv(ls@))
}

pub proof fn lemma_forth_view<C>(c: C, gs: Gs<C>)
    ensures
        graph_view(Graph::Forth(c, gs)) == GraphV::Forth(c, gsv(gs@)),
{
    let s = graph_view(Graph::Forth(c, gs))->Forth_1;
    assert(s =~= gsv(gs@));
}

pub proof fn lemma_build_view<C>(c: C, lss: Vec<Ls<C>>)
    ensures
        lazy_view(LazyGraph::Build(c, lss)) == LazyGraphV::Build(c, lssv(lss@)),
{
    let s = lazy_view(LazyGraph::Build(c, lss))->Build_1;
    assert forall|i: int| 0 <= i < lss.len() implies s[i] == lssv(lss@)[i] by {
        assert(s[i] =~= lssv(lss@)[i]);
    }
    assert(s =~= lssv(lss@));
}

/// The graph `Back(c)`.
pub fn back<C: Clone>(c: &C) -> (r: Rc<Graph<C>>)
    ensures
        clone_exact::<C>() ==> r@ == GraphV::Back(*c),
{
    Rc::new(Graph::Back(c.clone()))
}

/// The graph `Forth(c, gs)`.
pub fn forth<C: Clone>(c: &C, gs: &[Rc<Graph<C>>]) -> (r: Rc<Graph<C>>)
    ensures
        clone_exact::<C>() ==> r@ == GraphV::Forth(*c, gsv(gs@)),
{
    let mut v: Gs<C> = Vec::new();
    let mut i: usize = 0;
    while i < gs.len()
        invariant
            i <= gs.len(),
            v@ == gs@.take(i as int),
        decreases gs.len() - i,
    {
        v.push(Rc::clone(&gs[i]));
        i = i + 1;
        assert(v@ =~= gs@.take(i as int));
    }
    assert(v@ =~= gs@);
    let c1 = c.clone();
    proof {
        lemma_forth_view(c1, v);
    }
    Rc::new(Graph::Forth(c1, v))
}

/// The lazy graph `Empty`.
pub fn empty<C: Clone>() -> (r: Rc<LazyGraph<C>>)
    ensures
        r@ == LazyGraphV::<C>::Empty,
{
    Rc::new(LazyGraph::Empty())
}

/// The lazy graph `Stop(c)`.
pub fn stop<C: Clone>(c: &C) -> (r: Rc<LazyGraph<C>>)
    ensures
        clone_exact::<C>() ==> r@ == LazyGraphV::Stop(*c),
{
    Rc::new(LazyGraph::Stop(c.clone()))
}

/// The lazy graph `Build(c, lss)`.
pub fn build<C: Clone>(c: &C, lss: &[Ls<C>]) -> (r: Rc<LazyGraph<C>>)
    ensures
        clone_exact::<C>() ==> r@ == LazyGraphV::Build(*c, lssv(lss@)),
{
    let mut v: Vec<Ls<C>> = Vec::new();
    let mut i: usize = 0;
    while i < lss.len()
        invariant
            i <= lss.len(),
            lssv(v@) == lssv(lss@).take(i as int),
        decreases lss.len() - i,
    {
        let ls = &lss[i];
        let mut w: Ls<C> = Vec::new();
        let mut j: usize = 0;
        while j < ls.len()
            invariant
                j <= ls.len(),
                w@ == ls@.take(j as int),
            decreases ls.len() - j,
        {
            w.push(Rc::clone(&ls[j]));
            j = j + 1;
            assert(w@ =~= ls@.take(j as int));
        }
        assert(w@ =~= ls@);
        assert(lsv(w@) == lssv(lss@)[i as int]);
        let ghost before = v@;
        v.push(w);
        assert(lssv(v@) =~= lssv(before).push(lsv(w@)));
        i = i + 1;
        assert(lssv(v@) =~= lssv(lss@).take(i as int));
    }
    assert(lssv(v@) =~= lssv(lss@));
    let c1 = c.clone();
    proof {
        lemma_build_view(c1, v);
    }
    Rc::new(LazyGraph::Build(c1, v))
}

/// What each child of one alternative stands for.
pub open spec fn kid_units<C>(ls: Seq<LazyGraphV<C>>) -> Seq<Seq<GraphV<C>>>
    decreases ls, 0nat,
{
    Seq::new(
        ls.len(),
        |j: int|
            if 0 <= j < ls.len() {
                unroll_v(ls[j])
            } else {
                Seq::empty()
            },
    )
}

/// The graphs that one alternative of a `Build` node stands for, as lists of
/// children: the Cartesian product of what each child stands for.
pub open spec fn alt_unroll<C>(ls: Seq<LazyGraphV<C>>) -> Seq<Seq<GraphV<C>>>
    decreases ls, 1nat,
{
    cart(kid_units(ls))
}

/// What each alternative stands for.
pub open spec fn alts_unroll<C>(lss: Seq<Seq<LazyGraphV<C>>>) -> Seq<Seq<Seq<GraphV<C>>>>
    decreases lss, 2nat,
{
    Seq::new(
        lss.len(),
        |i: int|
            if 0 <= i < lss.len() {
                alt_unroll(lss[i])
            } else {
                Seq::empty()
            },
    )
}

/// The function that puts a list of children under `c`.
pub open spec fn forth_of<C>(c: C) -> spec_fn(Seq<GraphV<C>>) -> GraphV<C> {
    |gs: Seq<GraphV<C>>| GraphV::Forth(c, gs)
}

/// The list of graphs that a lazy graph stands for.
pub open spec fn unroll_v<C>(l: LazyGraphV<C>) -> Seq<GraphV<C>>
    decreases l, 3nat,
{
    match l {
        LazyGraphV::Empty => Seq::empty(),
        LazyGraphV::Stop(c) => seq![GraphV::Back(c)],
        LazyGraphV::Build(c, lss) => concat_all(alts_unroll(lss)).map_values(forth_of(c)),
    }
}

/// Combining lists of graphs whose values are `units` gives graphs whose
/// values are the Cartesian product of `units`.
pub proof fn lemma_tuples_view<C>(units: Seq<Seq<GraphV<C>>>, gss: Vec<Gs<C>>, tuples: Vec<Gs<C>>)
    requires
        gss.len() == units.len(),
        forall|jj: int| 0 <= jj < units.len() ==> gsv(#[trigger] gss@[jj]@) == units[jj],
        vv(tuples) == cart(vv(gss)),
    ensures
        tuples.len() == cart(units).len(),
        forall|k: int| 0 <= k < tuples.len() ==> gsv(#[trigger] tuples@[k]@) == cart(units)[k],
{
    let f = |g: Rc<Graph<C>>| graph_view(*g);
    lemma_cart_map(vv(gss), f);
    assert forall|jj: int| 0 <= jj < units.len() implies vv(gss).map_values(
        |xs: Seq<Rc<Graph<C>>>| xs.map_values(f),
    )[jj] == units[jj] by {
        assert(gss@[jj]@.map_values(f) =~= gsv(gss@[jj]@));
    }
    assert(vv(gss).map_values(|xs: Seq<Rc<Graph<C>>>| xs.map_values(f)) =~= units);
    assert forall|k: int| 0 <= k < tuples.len() implies gsv(#[trigger] tuples@[k]@) == cart(
        units,
    )[k] by {
        assert(vv(tuples)[k] == tuples@[k]@);
        assert(tuples@[k]@.map_values(f) =~= gsv(tuples@[k]@));
    }
}

/// The list of graphs that `l` stands for, in the order of its alternatives
/// and of the Cartesian products of its children.
pub fn unroll<C: Clone>(l: &LazyGraph<C>) -> (r: Gs<C>)
    requires
        clone_exact::<C>(),
    ensures
        gsv(r@) == unroll_v(l@),
    decreases l,
{
    match l {
        LazyGraph::Empty() => {
            let r: Gs<C> = Vec::new();
            assert(l@ == LazyGraphV::<C>::Empty);
            assert(unroll_v(LazyGraphV::<C>::Empty) == Seq::<GraphV<C>>::empty());
            assert(gsv(r@) =~= unroll_v(l@));
            r
        },
        LazyGraph::Stop(c) => {
            let r = vec![back(c)];
            assert(gsv(r@) =~= unroll_v(l@));
            r
        },
        LazyGraph::Build(c, lss) => {
            proof {
                lemma_build_view(*c, *lss);
            }
            let ghost big = lssv(lss@);
            let ghost parts = alts_unroll(big);
            let ghost fc = forth_of(*c);
            let mut r: Gs<C> = Vec::new();
            let mut i: usize = 0;
            while i < lss.len()
                invariant
                    clone_exact::<C>(),
                    i <= lss.len(),
                    big == lssv(lss@),
                    big.len() == lss.len(),
                    parts.len() == big.len(),
                    forall|ii: int| 0 <= ii < big.len() ==> #[trigger] parts[ii] == alt_unroll(big[ii]),
                    l@ == LazyGraphV::Build(*c, big),
                    *l == LazyGraph::Build(*c, *lss),
                    fc == forth_of(*c),
                    gsv(r@) == concat_all(parts.take(i as int)).map_values(fc),
                decreases lss.len() - i,
            {
                let ls = &lss[i];
                let ghost kids = big[i as int];
                assert(kids == lsv(ls@));
                let mut gss: Vec<Gs<C>> = Vec::new();
                let mut j: usize = 0;
                while j < ls.len()
                    invariant
                        clone_exact::<C>(),
                        j <= ls.len(),
                        i < lss.len(),
                        *l == LazyGraph::Build(*c, *lss),
                        ls == lss[i as int],
                        kids == lsv(ls@),
                        gss.len() == j,
                        forall|jj: int| 0 <= jj < j ==> gsv(#[trigger] gss@[jj]@) == kid_units(kids)[jj],
                    decreases ls.len() - j,
                {
                    let child: &LazyGraph<C> = &ls[j];
                    assert(decreases_to!(*l => *child)) by {
                        broadcast use vstd::std_specs::vec::group_vec_axioms;
                        assert(*lss == l->Build_1);
                        assert(decreases_to!(*l => l->Build_1));
                        assert(decreases_to!(*lss => lss[i as int]));
                        assert(decreases_to!(lss[i as int] => lss[i as int][j as int]));
                    }
                    let gs = unroll(child);
                    gss.push(gs);
                    j = j + 1;
                }
                let tuples = cartesian_rc(&gss);
                proof {
                    lemma_tuples_view(kid_units(kids), gss, tuples);
                }
                let ghost base = gsv(r@);
                let mut k: usize = 0;
                while k < tuples.len()
                    invariant
                        clone_exact::<C>(),
                        k <= tuples.len(),
                        i < lss.len(),
                        fc == forth_of(*c),
                        parts.len() == lss.len(),
                        tuples.len() == parts[i as int].len(),
                        forall|kk: int| 0 <= kk < tuples.len() ==> gsv(#[trigger] tuples@[kk]@) == parts[i as int][kk],
                        gsv(r@) == base + parts[i as int].take(k as int).map_values(fc),
                    decreases tuples.len() - k,
                {
                    let g = forth(c, tuples[k].as_slice());
                    assert(g@ == GraphV::Forth(*c, gsv(tuples[k as int]@)));
                    assert(gsv(tuples@[k as int]@) == parts[i as int][k as int]);
                    assert(fc(parts[i as int][k as int]) == GraphV::Forth(*c, parts[i as int][k as int]));
                    let ghost before = r@;
                    r.push(g);
                    proof {
                        assert(gsv(tuples[k as int]@) == parts[i as int][k as int]);
                        assert(gsv(r@) =~= gsv(before).push(graph_view(*g)));
                        assert(parts[i as int].take(k + 1).map_values(fc) =~= parts[i as int].take(
                            k as int,
                        ).map_values(fc).push(fc(parts[i as int][k as int])));
                    }
                    k = k + 1;
                    assert(gsv(r@) =~= base + parts[i as int].take(k as int).map_values(fc));
                }
                proof {
                    assert(parts[i as int].take(k as int) =~= parts[i as int]);
                    lemma_concat_all_take(parts, i as int);
                    assert(concat_all(parts.take(i + 1)).map_values(fc) =~= concat_all(
                        parts.take(i as int),
                    ).map_values(fc) + parts[i as int].map_values(fc));
                }
                i = i + 1;
            }
            assert(parts.take(i as int) =~= parts);
            r
        },
    }
}

} // verus!

verus! {

/// For each graph of `gs`, whether it holds a configuration on which `p` holds.
pub open spec fn bad_flags<C>(p: spec_fn(C) -> bool, gs: Seq<GraphV<C>>) -> Seq<bool>
    decreases gs, 0nat,
{
    Seq::new(
        gs.len(),
        |i: int|
            if 0 <= i < gs.len() {
                bad_graph_v(p, gs[i])
            } else {
                false
            },
    )
}

/// Whether `g` holds a configuration on which `p` holds.
pub open spec fn bad_graph_v<C>(p: spec_fn(C) -> bool, g: GraphV<C>) -> bool
    decreases g, 1nat,
{
    match g {
        GraphV::Back(c) => p(c),
        GraphV::Forth(c, gs) => p(c) || bad_flags(p, gs).contains(true),
    }
}

/// Whether a graph holds no configuration on which `p` holds.
pub open spec fn good_graph<C>(p: spec_fn(C) -> bool) -> spec_fn(GraphV<C>) -> bool {
    |g: GraphV<C>| !bad_graph_v(p, g)
}

/// The graphs of `gs` that hold no configuration on which `p` holds.
pub open spec fn fl_bad_v<C>(p: spec_fn(C) -> bool, gs: Seq<GraphV<C>>) -> Seq<GraphV<C>> {
    gs.filter(good_graph(p))
}

/// Whether `g` holds a configuration that `bad` flags.
pub fn bad_graph<C, F: Fn(&C) -> bool + Copy>(bad: F, g: &Graph<C>) -> (r: bool)
    requires
        pure_pred(bad),
    ensures
        r == bad_graph_v(pred_of(bad), g@),
    decreases g,
{
    match g {
        Graph::Back(c) => bad(c),
        Graph::Forth(c, gs) => {
            proof {
                lemma_forth_view(*c, *gs);
            }
            if bad(c) {
                return true;
            }
            let mut i: usize = 0;
            while i < gs.len()
                invariant
                    pure_pred(bad),
                    i <= gs.len(),
                    *g == Graph::Forth(*c, *gs),
                    g@ == GraphV::Forth(*c, gsv(gs@)),
                    !pred_of(bad)(*c),
                    forall|k: int| 0 <= k < i ==> !(#[trigger] bad_flags(pred_of(bad), gsv(gs@))[k]),
                decreases gs.len() - i,
            {
                let child: &Graph<C> = &gs[i];
                assert(decreases_to!(*g => *child)) by {
                    assert(decreases_to!(*g => g->Forth_1));
                    assert(decreases_to!(*gs => gs[i as int]));
                }
                if bad_graph(bad, child) {
                    assert(gsv(gs@)[i as int] == child@);
                    assert(bad_graph_v(pred_of(bad), gsv(gs@)[i as int]));
                    assert(bad_flags(pred_of(bad), gsv(gs@))[i as int]);
                    return true;
                }
                assert(!bad_flags(pred_of(bad), gsv(gs@))[i as int]);
                i = i + 1;
            }
            assert(!bad_flags(pred_of(bad), gsv(gs@)).contains(true));
            false
        },
    }
}

/// The graphs of `gs` that hold no configuration that `bad` flags, in order.
pub fn fl_bad_conf<C, F: Fn(&C) -> bool + Copy>(bad: F, gs: Gs<C>) -> (r: Gs<C>)
    requires
        pure_pred(bad),
    ensures
        gsv(r@) == fl_bad_v(pred_of(bad), gsv(gs@)),
{
    let ghost keep = good_graph(pred_of(bad));
    let mut r: Gs<C> = Vec::new();
    let mut i: usize = 0;
    while i < gs.len()
        invariant
            pure_pred(bad),
            i <= gs.len(),
            keep == good_graph(pred_of(bad)),
            gsv(r@) == gsv(gs@).take(i as int).filter(keep),
        decreases gs.len() - i,
    {
        let g = &gs[i];
        let b = bad_graph(bad, g);
        proof {
            assert(gsv(gs@).take(i + 1) =~= gsv(gs@).take(i as int).push(gsv(gs@)[i as int]));
            gsv(gs@).take(i as int).lemma_filter_push(gsv(gs@)[i as int], keep);
            assert(gsv(gs@)[i as int] == g@);
        }
        if !b {
            let ghost before = r@;
            r.push(Rc::clone(g));
            assert(gsv(r@) =~= gsv(before).push(graph_view(**g)));
        }
        i = i + 1;
    }
    assert(gsv(gs@).take(i as int) =~= gsv(gs@));
    r
}

/// Whether an alternative has an `Empty` child.
pub open spec fn has_empty<C>(ls: Seq<LazyGraphV<C>>) -> bool {
    exists|j: int| 0 <= j < ls.len() && (#[trigger] ls[j]) is Empty
}

/// Whether an alternative has no `Empty` child.
pub open spec fn full_alt<C>() -> spec_fn(Seq<LazyGraphV<C>>) -> bool {
    |ls: Seq<LazyGraphV<C>>| !has_empty(ls)
}

/// The children of one alternative, each cleaned of empty subtrees.
pub open spec fn cl_alt_v<C>(ls: Seq<LazyGraphV<C>>) -> Seq<LazyGraphV<C>>
    decreases ls, 0nat,
{
    Seq::new(
        ls.len(),
        |j: int|
            if 0 <= j < ls.len() {
                cl_empty_v(ls[j])
            } else {
                LazyGraphV::Empty
            },
    )
}

/// The alternatives of a `Build` node, each cleaned.
pub open spec fn cl_alt_list_v<C>(lss: Seq<Seq<LazyGraphV<C>>>) -> Seq<Seq<LazyGraphV<C>>>
    decreases lss, 1nat,
{
    Seq::new(
        lss.len(),
        |i: int|
            if 0 <= i < lss.len() {
                cl_alt_v(lss[i])
            } else {
                Seq::empty()
            },
    )
}

/// The alternatives of a `Build` node, each cleaned, dropping those with an
/// `Empty` child.
pub open spec fn cl_alts_v<C>(lss: Seq<Seq<LazyGraphV<C>>>) -> Seq<Seq<LazyGraphV<C>>>
    decreases lss, 2nat,
{
    cl_alt_list_v(lss).filter(full_alt())
}

/// `l` with the subtrees that stand for no graph removed.
pub open spec fn cl_empty_v<C>(l: LazyGraphV<C>) -> LazyGraphV<C>
    decreases l, 3nat,
{
    match l {
        LazyGraphV::Empty => LazyGraphV::Empty,
        LazyGraphV::Stop(c) => LazyGraphV::Stop(c),
        LazyGraphV::Build(c, lss) => {
            let alts = cl_alts_v(lss);
            if alts.len() == 0 {
                LazyGraphV::Empty
            } else {
                LazyGraphV::Build(c, alts)
            }
        },
    }
}

/// Removes the alternatives that hold an `Empty` child, recursively, and turns
/// a `Build` node with no alternative left into `Empty`.
pub fn cl_empty<C: Clone>(l: &LazyGraph<C>) -> (r: Rc<LazyGraph<C>>)
    requires
        clone_exact::<C>(),
    ensures
        r@ == cl_empty_v(l@),
        unroll_v(r@) == unroll_v(l@),
        cl_empty_v(r@) == r@,
    decreases l,
{
    proof {
        lemma_cl_empty_unroll(l@);
        lemma_cl_empty_idempotent(l@);
    }
    match l {
        LazyGraph::Empty() => empty(),
        LazyGraph::Stop(c) => stop(c),
        LazyGraph::Build(c, lss) => {
            proof {
                lemma_build_view(*c, *lss);
                assert(decreases_to!(*l => l->Build_1));
            }
            let lss1 = cl_empty_lss(lss);
            cl_empty_build(c, lss1.as_slice())
        },
    }
}

fn cl_empty_build<C: Clone>(c: &C, lss: &[Ls<C>]) -> (r: Rc<LazyGraph<C>>)
    requires
        clone_exact::<C>(),
    ensures
        r@ == (if lss@.len() == 0 {
            LazyGraphV::Empty
        } else {
            LazyGraphV::Build(*c, lssv(lss@))
        }),
{
    if lss.len() == 0 {
        empty()
    } else {
        build(c, lss)
    }
}

fn cl_empty_lss<C: Clone>(lss: &Vec<Ls<C>>) -> (r: Vec<Ls<C>>)
    requires
        clone_exact::<C>(),
    ensures
        lssv(r@) == cl_alts_v(lssv(lss@)),
    decreases lss,
{
    let ghost src = lssv(lss@);
    let ghost cleaned = cl_alt_list_v(src);
    let ghost keep = full_alt::<C>();
    let mut r: Vec<Ls<C>> = Vec::new();
    let mut i: usize = 0;
    while i < lss.len()
        invariant
            clone_exact::<C>(),
            i <= lss.len(),
            src == lssv(lss@),
            cleaned.len() == src.len(),
            forall|k: int| 0 <= k < src.len() ==> #[trigger] cleaned[k] == cl_alt_v(src[k]),
            keep == full_alt::<C>(),
            lssv(r@) == cleaned.take(i as int).filter(keep),
        decreases lss.len() - i,
    {
        assert(decreases_to!(*lss => lss[i as int]));
        let o = cl_empty_ls(&lss[i]);
        proof {
            assert(cleaned.take(i + 1) =~= cleaned.take(i as int).push(cleaned[i as int]));
            cleaned.take(i as int).lemma_filter_push(cleaned[i as int], keep);
            assert(cleaned[i as int] == cl_alt_v(lsv(lss@[i as int]@)));
        }
        match o {
            Some(ls1) => {
                let ghost before = r@;
                r.push(ls1);
                assert(lssv(r@) =~= lssv(before).push(lsv(ls1@)));
            },
            None => {},
        }
        i = i + 1;
    }
    assert(cleaned.take(i as int) =~= cleaned);
    r
}

fn cl_empty_ls<C: Clone>(ls: &Ls<C>) -> (r: Option<Ls<C>>)
    requires
        clone_exact::<C>(),
    ensures
        match r {
            None => has_empty(cl_alt_v(lsv(ls@))),
            Some(v) => !has_empty(cl_alt_v(lsv(ls@))) && lsv(v@) == cl_alt_v(lsv(ls@)),
        },
    decreases ls,
{
    let ghost want = cl_alt_v(lsv(ls@));
    let mut ls1: Ls<C> = Vec::new();
    let mut j: usize = 0;
    while j < ls.len()
        invariant
            clone_exact::<C>(),
            j <= ls.len(),
            want == cl_alt_v(lsv(ls@)),
            lsv(ls1@) == want.take(j as int),
        decreases ls.len() - j,
    {
        assert(decreases_to!(*ls => ls[j as int]));
        let l1 = cl_empty(&ls[j]);
        let ghost before = ls1@;
        ls1.push(l1);
        assert(lsv(ls1@) =~= lsv(before).push(lazy_view(*l1)));
        j = j + 1;
        assert(lsv(ls1@) =~= want.take(j as int));
    }
    assert(want.take(j as int) =~= want);
    let mut k: usize = 0;
    while k < ls1.len()
        invariant
            k <= ls1.len(),
            want == cl_alt_v(lsv(ls@)),
            lsv(ls1@) == want,
            forall|jj: int| 0 <= jj < k ==> !(#[trigger] want[jj] is Empty),
        decreases ls1.len() - k,
    {
        if is_lg_empty(&ls1[k]) {
            assert(want[k as int] is Empty);
            assert(has_empty(want));
            return None;
        }
        k = k + 1;
    }
    Some(ls1)
}

fn is_lg_empty<C>(l: &LazyGraph<C>) -> (r: bool)
    ensures
        r == (l@ is Empty),
{
    match l {
        LazyGraph::Empty() => true,
        _ => false,
    }
}

/// The children of one alternative, each cleaned of flagged configurations.
pub open spec fn bad_alt_v<C>(p: spec_fn(C) -> bool, ls: Seq<LazyGraphV<C>>) -> Seq<LazyGraphV<C>>
    decreases ls, 0nat,
{
    Seq::new(
        ls.len(),
        |j: int|
            if 0 <= j < ls.len() {
                cl_bad_v(p, ls[j])
            } else {
                LazyGraphV::Empty
            },
    )
}

/// The alternatives of a `Build` node, each cleaned of flagged configurations.
pub open spec fn bad_alts_v<C>(p: spec_fn(C) -> bool, lss: Seq<Seq<LazyGraphV<C>>>) -> Seq<
    Seq<LazyGraphV<C>>,
>
    decreases lss, 1nat,
{
    Seq::new(
        lss.len(),
        |i: int|
            if 0 <= i < lss.len() {
                bad_alt_v(p, lss[i])
            } else {
                Seq::empty()
            },
    )
}

/// `l` with every node whose configuration `p` flags replaced by `Empty`.
pub open spec fn cl_bad_v<C>(p: spec_fn(C) -> bool, l: LazyGraphV<C>) -> LazyGraphV<C>
    decreases l, 2nat,
{
    match l {
        LazyGraphV::Empty => LazyGraphV::Empty,
        LazyGraphV::Stop(c) => if p(c) {
            LazyGraphV::Empty
        } else {
            LazyGraphV::Stop(c)
        },
        LazyGraphV::Build(c, lss) => if p(c) {
            LazyGraphV::Empty
        } else {
            LazyGraphV::Build(c, bad_alts_v(p, lss))
        },
    }
}

/// Replaces every node whose configuration `bad` flags by `Empty`; empty
/// alternatives are left for `cl_empty`.
pub fn cl_bad_conf<C: Clone, F: Fn(&C) -> bool + Copy>(bad: F, l: &LazyGraph<C>) -> (r: Rc<
    LazyGraph<C>,
>)
    requires
        clone_exact::<C>(),
        pure_pred(bad),
    ensures
        r@ == cl_bad_v(pred_of(bad), l@),
        unroll_v(r@) == fl_bad_v(pred_of(bad), unroll_v(l@)),
    decreases l,
{
    proof {
        lemma_cl_bad_unroll(pred_of(bad), l@);
    }
    match l {
        LazyGraph::Empty() => empty(),
        LazyGraph::Stop(c) => {
            if bad(c) {
                empty()
            } else {
                stop(c)
            }
        },
        LazyGraph::Build(c, lss) => {
            proof {
                lemma_build_view(*c, *lss);
            }
            if bad(c) {
                return empty();
            }
            let ghost p = pred_of(bad);
            let ghost want = bad_alts_v(p, lssv(lss@));
            let mut lss1: Vec<Ls<C>> = Vec::new();
            let mut i: usize = 0;
            while i < lss.len()
                invariant
                    clone_exact::<C>(),
                    pure_pred(bad),
                    p == pred_of(bad),
                    i <= lss.len(),
                    *l == LazyGraph::Build(*c, *lss),
                    want == bad_alts_v(p, lssv(lss@)),
                    lssv(lss1@) == want.take(i as int),
                decreases lss.len() - i,
            {
                let ls = &lss[i];
                let ghost wi = want[i as int];
                assert(wi == bad_alt_v(p, lsv(ls@)));
                let mut ls1: Ls<C> = Vec::new();
                let mut j: usize = 0;
                while j < ls.len()
                    invariant
                        clone_exact::<C>(),
                        pure_pred(bad),
                        p == pred_of(bad),
                        i < lss.len(),
                        j <= ls.len(),
                        *l == LazyGraph::Build(*c, *lss),
                        ls == lss[i as int],
                        wi == bad_alt_v(p, lsv(ls@)),
                        lsv(ls1@) == wi.take(j as int),
                    decreases ls.len() - j,
                {
                    let child: &LazyGraph<C> = &ls[j];
                    assert(decreases_to!(*l => *child)) by {
                        assert(decreases_to!(*l => l->Build_1));
                        assert(decreases_to!(*lss => lss[i as int]));
                        assert(decreases_to!(lss[i as int] => lss[i as int][j as int]));
                    }
                    let l1 = cl_bad_conf(bad, child);
                    let ghost before = ls1@;
                    ls1.push(l1);
                    assert(lsv(ls1@) =~= lsv(before).push(lazy_view(*l1)));
                    j = j + 1;
                    assert(lsv(ls1@) =~= wi.take(j as int));
                }
                assert(wi.take(j as int) =~= wi);
                let ghost before = lss1@;
                lss1.push(ls1);
                assert(lssv(lss1@) =~= lssv(before).push(lsv(ls1@)));
                i = i + 1;
                assert(lssv(lss1@) =~= want.take(i as int));
            }
            assert(want.take(i as int) =~= want);
            build(c, lss1.as_slice())
        },
    }
}

/// The safety filter: flagged configurations removed, then empty subtrees.
pub fn cl_empty_and_bad<C: Clone, F: Fn(&C) -> bool + Copy>(bad: F, l: &LazyGraph<C>) -> (r: Rc<
    LazyGraph<C>,
>)
    requires
        clone_exact::<C>(),
        pure_pred(bad),
    ensures
        r@ == cl_empty_v(cl_bad_v(pred_of(bad), l@)),
        unroll_v(r@) == fl_bad_v(pred_of(bad), unroll_v(l@)),
{
    proof {
        lemma_cl_empty_and_bad_unroll(pred_of(bad), l@);
    }
    let l1 = cl_bad_conf(bad, l);
    cl_empty(&l1)
}

/// The sizes of a list of graphs.
pub open spec fn sizes_v<C>(gs: Seq<GraphV<C>>) -> Seq<nat>
    decreases gs, 0nat,
{
    Seq::new(
        gs.len(),
        |i: int|
            if 0 <= i < gs.len() {
                graph_size_v(gs[i])
            } else {
                0
            },
    )
}

/// The number of nodes of a graph.
pub open spec fn graph_size_v<C>(g: GraphV<C>) -> nat
    decreases g, 1nat,
{
    match g {
        GraphV::Back(_) => 1,
        GraphV::Forth(_, gs) => 1 + sum_nat(sizes_v(gs)),
    }
}

/// The number of nodes of `g`.
pub fn graph_size<C>(g: &Graph<C>) -> (r: usize)
    requires
        graph_size_v(g@) <= usize::MAX,
    ensures
        r == graph_size_v(g@),
    decreases g,
{
    match g {
        Graph::Back(_) => 1,
        Graph::Forth(c, gs) => {
            proof {
                lemma_forth_view(*c, *gs);
            }
            let ghost ss = sizes_v(gsv(gs@));
            let mut n: usize = 0;
            let mut i: usize = 0;
            while i < gs.len()
                invariant
                    i <= gs.len(),
                    *g == Graph::Forth(*c, *gs),
                    ss == sizes_v(gsv(gs@)),
                    1 + sum_nat(ss) <= usize::MAX,
                    n == sum_nat(ss.take(i as int)),
                decreases gs.len() - i,
            {
                let child: &Graph<C> = &gs[i];
                assert(decreases_to!(*g => *child)) by {
                    assert(decreases_to!(*g => g->Forth_1));
                    assert(decreases_to!(*gs => gs[i as int]));
                }
                proof {
                    lemma_sum_nat_take(ss, i as int);
                    lemma_sum_nat_prefix(ss, i + 1);
                    assert(ss[i as int] == graph_size_v(child@));
                }
                let k = graph_size(child);
                n = n + k;
                i = i + 1;
            }
            assert(ss.take(i as int) =~= ss);
            1 + n
        },
    }
}

} // verus!

verus! {

/// The sum of two sizes, where `None` stands for an infinite size.
pub open spec fn add_opt(a: Option<nat>, b: Option<nat>) -> Option<nat> {
    match (a, b) {
        (Some(x), Some(y)) => Some(x + y),
        _ => None,
    }
}

/// `a <= b` on sizes, where `None` is larger than every number.
pub open spec fn le_opt(a: Option<nat>, b: Option<nat>) -> bool {
    match (a, b) {
        (_, None) => true,
        (None, Some(_)) => false,
        (Some(x), Some(y)) => x <= y,
    }
}

/// A size as a `usize`: `usize::MAX` for the infinite one.
pub open spec fn enc(a: Option<nat>) -> int {
    match a {
        Some(x) => x as int,
        None => usize::MAX as int,
    }
}

/// The size of a smallest graph and the lazy graph that picks it, for each
/// child of one alternative.
pub open spec fn sel_kids_v<C>(ls: Seq<LazyGraphV<C>>) -> Seq<(Option<nat>, LazyGraphV<C>)>
    decreases ls, 0nat,
{
    Seq::new(
        ls.len(),
        |j: int|
            if 0 <= j < ls.len() {
                sel_min_v(ls[j])
            } else {
                (None, LazyGraphV::Empty)
            },
    )
}

/// `sel_kids_v` for each alternative.
pub open spec fn sel_alts_v<C>(lss: Seq<Seq<LazyGraphV<C>>>) -> Seq<
    Seq<(Option<nat>, LazyGraphV<C>)>,
>
    decreases lss, 1nat,
{
    Seq::new(
        lss.len(),
        |i: int|
            if 0 <= i < lss.len() {
                sel_kids_v(lss[i])
            } else {
                Seq::empty()
            },
    )
}

/// The total size of the children of one alternative and their picks.
pub open spec fn and_v<C>(rs: Seq<(Option<nat>, LazyGraphV<C>)>) -> (Option<nat>, Seq<LazyGraphV<C>>)
    decreases rs.len(),
{
    if rs.len() == 0 {
        (Some(0), Seq::empty())
    } else {
        let p = and_v(rs.drop_last());
        (add_opt(p.0, rs.last().0), p.1.push(rs.last().1))
    }
}

/// The alternative of least total size, the first one among equals.
pub open spec fn best_v<C>(ars: Seq<Seq<(Option<nat>, LazyGraphV<C>)>>) -> (
    Option<nat>,
    Seq<LazyGraphV<C>>,
)
    decreases ars.len(),
{
    if ars.len() == 0 {
        (None, Seq::empty())
    } else {
        let acc = best_v(ars.drop_last());
        let cand = and_v(ars.last());
        if le_opt(acc.0, cand.0) {
            acc
        } else {
            cand
        }
    }
}

/// The size of a smallest graph that `l` stands for (`None` when there is
/// none), and a lazy graph that stands for that graph alone.
pub open spec fn sel_min_v<C>(l: LazyGraphV<C>) -> (Option<nat>, LazyGraphV<C>)
    decreases l, 2nat,
{
    match l {
        LazyGraphV::Empty => (None, LazyGraphV::Empty),
        LazyGraphV::Stop(c) => (Some(1), LazyGraphV::Stop(c)),
        LazyGraphV::Build(c, lss) => {
            let b = best_v(sel_alts_v(lss));
            match b.0 {
                None => (None, LazyGraphV::Empty),
                Some(k) => (Some(k + 1), LazyGraphV::Build(c, seq![b.1])),
            }
        },
    }
}

/// The sizes of smallest graphs of the children of one alternative, 0 for
/// a child that stands for no graph.
pub open spec fn kid_fins<C>(ls: Seq<LazyGraphV<C>>) -> Seq<nat> {
    sel_kids_v(ls).map_values(|r: (Option<nat>, LazyGraphV<C>)| fin(r.0))
}

/// For each child of one alternative, whether the sums that picking a
/// smallest graph makes in it fit.
pub open spec fn min_fit_flags<C>(ls: Seq<LazyGraphV<C>>) -> Seq<bool>
    decreases ls, 0nat,
{
    Seq::new(
        ls.len(),
        |j: int|
            if 0 <= j < ls.len() {
                min_fit(ls[j])
            } else {
                true
            },
    )
}

/// For each alternative, whether its total, plus one for the node above,
/// stays below `usize::MAX`, which stands for the infinite size, and whether
/// the same holds inside its children.
pub open spec fn alt_min_fits<C>(lss: Seq<Seq<LazyGraphV<C>>>) -> Seq<bool>
    decreases lss, 1nat,
{
    Seq::new(
        lss.len(),
        |i: int|
            if 0 <= i < lss.len() {
                sum_nat(kid_fins(lss[i])) + 1 < usize::MAX && all_set(min_fit_flags(lss[i]))
            } else {
                true
            },
    )
}

/// Every size that picking a smallest graph of `l` adds up stays below
/// `usize::MAX`, which stands for the infinite size.
pub open spec fn min_fit<C>(l: LazyGraphV<C>) -> bool
    decreases l, 2nat,
{
    match l {
        LazyGraphV::Build(_, lss) => all_set(alt_min_fits(lss)),
        _ => true,
    }
}

proof fn lemma_sum_nat_elem(s: Seq<nat>, i: int)
    requires
        0 <= i < s.len(),
    ensures
        s[i] <= sum_nat(s),
{
    lemma_sum_nat_take(s, i);
    lemma_sum_nat_prefix(s, i + 1);
}

proof fn lemma_and_bound<C>(rs: Seq<(Option<nat>, LazyGraphV<C>)>, bounds: Seq<nat>)
    requires
        rs.len() == bounds.len(),
        forall|j: int| 0 <= j < rs.len() ==> ((#[trigger] rs[j]).0 matches Some(x) ==> x <= bounds[j]),
    ensures
        and_v(rs).0 matches Some(k) ==> k <= sum_nat(bounds),
        and_v(rs).1.len() == rs.len(),
    decreases rs.len(),
{
    if rs.len() > 0 {
        lemma_and_bound(rs.drop_last(), bounds.drop_last());
        assert(rs.last() == rs[rs.len() - 1]);
    }
}

/// The smaller of two sized values, the first one among equals.
fn select_min2<T>(kx1: (usize, T), kx2: (usize, T)) -> (r: (usize, T))
    ensures
        r == (if kx1.0 <= kx2.0 {
            kx1
        } else {
            kx2
        }),
{
    if kx1.0 <= kx2.0 {
        kx1
    } else {
        kx2
    }
}

fn add_min_size(x1: usize, x2: usize) -> (r: usize)
    requires
        x1 == usize::MAX || x2 == usize::MAX || x1 + x2 < usize::MAX,
    ensures
        r == (if x1 == usize::MAX || x2 == usize::MAX {
            usize::MAX as int
        } else {
            x1 + x2
        }),
{
    if x1 == usize::MAX || x2 == usize::MAX {
        usize::MAX
    } else {
        x1 + x2
    }
}

fn sel_min_size_and<C: Clone>(ls: &[Rc<LazyGraph<C>>]) -> (r: (usize, Ls<C>))
    requires
        clone_exact::<C>(),
        sum_nat(kid_fins(lsv(ls@))) + 1 < usize::MAX,
        all_set(min_fit_flags(lsv(ls@))),
    ensures
        r.0 == enc(and_v(sel_kids_v(lsv(ls@))).0),
        lsv(r.1@) == and_v(sel_kids_v(lsv(ls@))).1,
    decreases ls@,
{
    let ghost kids = lsv(ls@);
    let ghost rs = sel_kids_v(kids);
    let ghost fs = kid_fins(kids);
    let mut k: usize = 0;
    let mut ls1: Ls<C> = Vec::new();
    let mut j: usize = 0;
    while j < ls.len()
        invariant
            clone_exact::<C>(),
            j <= ls.len(),
            kids == lsv(ls@),
            rs == sel_kids_v(kids),
            fs == kid_fins(kids),
            sum_nat(fs) + 1 < usize::MAX,
            all_set(min_fit_flags(kids)),
            k == enc(and_v(rs.take(j as int)).0),
            lsv(ls1@) == and_v(rs.take(j as int)).1,
            and_v(rs.take(j as int)).0 matches Some(x) ==> x <= sum_nat(fs.take(j as int)),
        decreases ls.len() - j,
    {
        let child: &LazyGraph<C> = &ls[j];
        assert(decreases_to!(ls@ => ls@[j as int]));
        proof {
            lemma_sum_nat_take(fs, j as int);
            lemma_sum_nat_prefix(fs, j + 1);
            assert(rs.take(j + 1).drop_last() =~= rs.take(j as int));
            assert(fs[j as int] == fin(sel_min_v(child@).0));
            assert(min_fit_flags(kids)[j as int]);
        }
        let (k1, l1) = sel_min_size(child);
        k = add_min_size(k, k1);
        let ghost before = ls1@;
        ls1.push(l1);
        assert(lsv(ls1@) =~= lsv(before).push(l1@));
        j = j + 1;
    }
    assert(rs.take(j as int) =~= rs);
    (k, ls1)
}

fn sel_min_size2<C: Clone>(lss: &[Ls<C>]) -> (r: (usize, Ls<C>))
    requires
        clone_exact::<C>(),
        all_set(alt_min_fits(lssv(lss@))),
    ensures
        r.0 == enc(best_v(sel_alts_v(lssv(lss@))).0),
        lsv(r.1@) == best_v(sel_alts_v(lssv(lss@))).1,
        best_v(sel_alts_v(lssv(lss@))).0 matches Some(x) ==> x + 1 < usize::MAX,
    decreases lss@,
{
    let ghost big = lssv(lss@);
    let ghost ars = sel_alts_v(big);
    proof {
        assert forall|i: int| 0 <= i < ars.len() implies (and_v(#[trigger] ars[i]).0 matches Some(x)
            ==> x + 1 < usize::MAX) by {
            assert(alt_min_fits(big)[i]);
            let fs = kid_fins(big[i]);
            assert forall|j: int| 0 <= j < ars[i].len() implies ((#[trigger] ars[i][j]).0 matches Some(
                x,
            ) ==> x <= fs[j]) by {}
            lemma_and_bound(ars[i], fs);
        }
    }
    let mut acc: (usize, Ls<C>) = (usize::MAX, Vec::new());
    assert(lsv(acc.1@) =~= best_v(ars.take(0)).1);
    let mut i: usize = 0;
    while i < lss.len()
        invariant
            clone_exact::<C>(),
            i <= lss.len(),
            big == lssv(lss@),
            ars == sel_alts_v(big),
            all_set(alt_min_fits(big)),
            forall|i: int| 0 <= i < ars.len() ==> (and_v(#[trigger] ars[i]).0 matches Some(x) ==> x + 1
                < usize::MAX),
            acc.0 == enc(best_v(ars.take(i as int)).0),
            lsv(acc.1@) == best_v(ars.take(i as int)).1,
            best_v(ars.take(i as int)).0 matches Some(x) ==> x + 1 < usize::MAX,
        decreases lss.len() - i,
    {
        let ls = &lss[i];
        assert(decreases_to!(lss@ => lss@[i as int]));
        proof {
            assert(ars.take(i + 1).drop_last() =~= ars.take(i as int));
            assert(ars[i as int] == sel_kids_v(lsv(ls@)));
            assert(alt_min_fits(big)[i as int]);
        }
        let cand = sel_min_size_and(ls.as_slice());
        acc = select_min2(acc, cand);
        i = i + 1;
        proof {
            let pre = ars.take(i as int);
            lemma_best_v(pre);
            if best_v(pre).0 is Some {
                let q = choose|q: int| 0 <= q < pre.len() && best_v(pre) == and_v(#[trigger] pre[q]);
                assert(pre[q] == ars[q]);
            }
        }
    }
    assert(ars.take(i as int) =~= ars);
    acc
}

fn sel_min_size<C: Clone>(l: &LazyGraph<C>) -> (r: (usize, Rc<LazyGraph<C>>))
    requires
        clone_exact::<C>(),
        min_fit(l@),
    ensures
        r.0 == enc(sel_min_v(l@).0),
        r.1@ == sel_min_v(l@).1,
    decreases l,
{
    match l {
        LazyGraph::Empty() => (usize::MAX, empty()),
        LazyGraph::Stop(c) => (1, stop(c)),
        LazyGraph::Build(c, lss) => {
            proof {
                lemma_build_view(*c, *lss);
                assert(decreases_to!(*l => lss@)) by {
                    assert(decreases_to!(*l => l->Build_1));
                }
            }
            let (k, ls) = sel_min_size2(lss.as_slice());
            if k == usize::MAX {
                (usize::MAX, empty())
            } else {
                let alts: Vec<Ls<C>> = vec![ls];
                let r = build(c, alts.as_slice());
                assert(lssv(alts@) =~= seq![lsv(ls@)]);
                (1 + k, r)
            }
        },
    }
}

/// A lazy graph that stands for a smallest graph of `l` alone, or `Empty`
/// when `l` stands for no graph.
pub fn cl_min_size<C: Clone>(l: &LazyGraph<C>) -> (r: Rc<LazyGraph<C>>)
    requires
        clone_exact::<C>(),
        min_fit(l@),
    ensures
        r@ == sel_min_v(l@).1,
        unroll_v(l@).len() == 0 ==> r@ == LazyGraphV::<C>::Empty,
        unroll_v(l@).len() > 0 ==> {
            let m = unroll_v(r@);
            &&& m.len() == 1
            &&& unroll_v(l@).contains(m[0])
            &&& forall|i: int| 0 <= i < unroll_v(l@).len() ==> graph_size_v(m[0]) <= graph_size_v(
                #[trigger] unroll_v(l@)[i],
            )
        },
{
    proof {
        lemma_sel_min_facts(l@);
    }
    sel_min_size(l).1
}

} // verus!

verus! {

/// `n` spaces.
pub open spec fn spaces(n: nat) -> Seq<char> {
    Seq::new(n, |i: int| ' ')
}

/// The printed children of a node printed at `indent`.
pub open spec fn pp_kids(gs: Seq<GraphV<String>>, indent: nat) -> Seq<Seq<char>>
    decreases gs, 0nat,
{
    Seq::new(
        gs.len(),
        |i: int|
            if 0 <= i < gs.len() {
                seq!['\n', ' ', ' '] + spaces(indent) + seq!['|', '\n'] + pp_v(gs[i], indent + 2)
            } else {
                Seq::empty()
            },
    )
}

/// The printed tree of a graph whose configurations are already text: one
/// line `|__c` per node at `indent`, a `*` after a `Back` node, and a line
/// `|` before each child, which is printed two columns further in.
pub open spec fn pp_v(g: GraphV<String>, indent: nat) -> Seq<char>
    decreases g, 1nat,
{
    match g {
        GraphV::Back(c) => spaces(indent) + seq!['|', '_', '_'] + c@ + seq!['*'],
        GraphV::Forth(c, gs) => spaces(indent) + seq!['|', '_', '_'] + c@ + concat_all(
            pp_kids(gs, indent),
        ),
    }
}

/// The shape of a graph, its configurations left out.
pub open spec fn shape<C>(g: GraphV<C>) -> GraphV<()>
    decreases g,
{
    match g {
        GraphV::Back(_) => GraphV::Back(()),
        GraphV::Forth(_, gs) => GraphV::Forth(
            (),
            Seq::new(
                gs.len(),
                |i: int|
                    if 0 <= i < gs.len() {
                        shape(gs[i])
                    } else {
                        GraphV::Back(())
                    },
            ),
        ),
    }
}

fn make_spaces(n: usize) -> (r: String)
    ensures
        r@ == spaces(n as nat),
{
    let mut r = String::new();
    let mut i: usize = 0;
    while i < n
        invariant
            i <= n,
            r@ == spaces(i as nat),
        decreases n - i,
    {
        r.append(" ");
        proof {
            reveal_strlit(" ");
        }
        i = i + 1;
        assert(r@ =~= spaces(i as nat));
    }
    r
}

/// Prints a graph whose configurations are already text, at `indent`.
pub fn graph_pretty_printer_loop(g: &Graph<String>, indent: usize) -> (r: String)
    requires
        indent + 2 * graph_size_v(g@) <= usize::MAX,
    ensures
        r@ == pp_v(g@, indent as nat),
    decreases g,
{
    let mut r = make_spaces(indent);
    r.append("|__");
    proof {
        reveal_strlit("|__");
    }
    match g {
        Graph::Back(c) => {
            r.append(c.as_str());
            r.append("*");
            proof {
                reveal_strlit("*");
            }
            r
        },
        Graph::Forth(c, gs) => {
            proof {
                lemma_forth_view(*c, *gs);
            }
            r.append(c.as_str());
            let ghost head = r@;
            let ghost kids = pp_kids(gsv(gs@), indent as nat);
            let ghost ss = sizes_v(gsv(gs@));
            let mut i: usize = 0;
            assert(kids.take(0) =~= Seq::<Seq<char>>::empty());
            while i < gs.len()
                invariant
                    i <= gs.len(),
                    *g == Graph::Forth(*c, *gs),
                    g@ == GraphV::Forth(*c, gsv(gs@)),
                    kids == pp_kids(gsv(gs@), indent as nat),
                    ss == sizes_v(gsv(gs@)),
                    indent + 2 * (1 + sum_nat(ss)) <= usize::MAX,
                    r@ == head + concat_all(kids.take(i as int)),
                decreases gs.len() - i,
            {
                let child: &Graph<String> = &gs[i];
                assert(decreases_to!(*g => *child)) by {
                    assert(decreases_to!(*g => g->Forth_1));
                    assert(decreases_to!(*gs => gs[i as int]));
                }
                proof {
                    lemma_sum_nat_elem(ss, i as int);
                    assert(ss[i as int] == graph_size_v(child@));
                    reveal_strlit("\n  ");
                    reveal_strlit("|");
                    reveal_strlit("\n");
                    lemma_concat_all_take(kids, i as int);
                }
                let ghost before = r@;
                r.append("\n  ");
                let sp = make_spaces(indent);
                r.append(sp.as_str());
                r.append("|");
                r.append("\n");
                let t = graph_pretty_printer_loop(child, indent + 2);
                r.append(t.as_str());
                assert(r@ =~= before + kids[i as int]);
                i = i + 1;
            }
            assert(kids.take(i as int) =~= kids);
            r
        },
    }
}

/// Relies on std's `Display` for the configurations, through `format!`.
#[verifier::external_body]
fn display_text<C: std::fmt::Display>(c: &C) -> String {
    format!("{}", c)
}

/// `g` with every configuration replaced by its text.
fn label_graph<C: std::fmt::Display>(g: &Graph<C>) -> (r: Graph<String>)
    ensures
        shape(r@) == shape(g@),
        graph_size_v(r@) == graph_size_v(g@),
    decreases g,
{
    match g {
        Graph::Back(c) => Graph::Back(display_text(c)),
        Graph::Forth(c, gs) => {
            proof {
                lemma_forth_view(*c, *gs);
            }
            let mut v: Gs<String> = Vec::new();
            let mut i: usize = 0;
            while i < gs.len()
                invariant
                    i <= gs.len(),
                    *g == Graph::Forth(*c, *gs),
                    v.len() == i,
                    forall|k: int| 0 <= k < i ==> shape(#[trigger] gsv(v@)[k]) == shape(gsv(gs@)[k]),
                    forall|k: int| 0 <= k < i ==> graph_size_v(#[trigger] gsv(v@)[k]) == graph_size_v(gsv(gs@)[k]),
                decreases gs.len() - i,
            {
                let child: &Graph<C> = &gs[i];
                assert(decreases_to!(*g => *child)) by {
                    assert(decreases_to!(*g => g->Forth_1));
                    assert(decreases_to!(*gs => gs[i as int]));
                }
                let lg = label_graph(child);
                let ghost before = v@;
                v.push(Rc::new(lg));
                assert(gsv(v@) =~= gsv(before).push(lg@));
                assert(gsv(gs@)[i as int] == child@);
                i = i + 1;
            }
            let t = display_text(c);
            proof {
                lemma_forth_view(t, v);
                let a = gsv(v@);
                let b = gsv(gs@);
                assert(sizes_v(a) =~= sizes_v(b));
                assert(shape(GraphV::Forth(t, a))->Forth_1 =~= shape(GraphV::Forth(*c, b))->Forth_1);
            }
            Graph::Forth(t, v)
        },
    }
}

} // verus!

verus! {

/// Prints `g` as an indented tree, each configuration by its `Display`
/// text (see `pp_v` for the layout).
pub fn graph_pretty_printer<C: std::fmt::Display>(g: &Graph<C>) -> (r: String)
    requires
        2 * graph_size_v(g@) <= usize::MAX,
    ensures
        exists|lg: GraphV<String>| shape(lg) == shape(g@) && r@ == pp_v(lg, 0),
{
    let lg = label_graph(g);
    graph_pretty_printer_loop(&lg, 0)
}

} // verus!

verus! {

/// Cleaning a lazy graph of empty subtrees twice cleans it once.
pub proof fn lemma_cl_empty_idempotent<C>(l: LazyGraphV<C>)
    ensures
        cl_empty_v(cl_empty_v(l)) == cl_empty_v(l),
    decreases l,
{
    if let LazyGraphV::Build(c, lss) = l {
        let all = cl_alt_list_v(lss);
        let kept = cl_alts_v(lss);
        let fix = |ls: Seq<LazyGraphV<C>>| cl_alt_v(ls) == ls;
        assert forall|k: int| 0 <= k < all.len() implies fix(#[trigger] all[k]) by {
            let ls = lss[k];
            assert forall|j: int| 0 <= j < ls.len() implies #[trigger] cl_alt_v(cl_alt_v(ls))[j]
                == cl_alt_v(ls)[j] by {
                lemma_cl_empty_idempotent(ls[j]);
            }
            assert(cl_alt_v(cl_alt_v(ls)) =~= cl_alt_v(ls));
        }
        crate::misc::lemma_filter_all(all, full_alt(), fix);
        if kept.len() > 0 {
            assert(cl_alt_list_v(kept) =~= kept) by {
                assert forall|i: int| 0 <= i < kept.len() implies #[trigger] cl_alt_list_v(
                    kept,
                )[i] == kept[i] by {
                    assert(fix(kept[i]));
                }
            }
            assert forall|i: int| 0 <= i < kept.len() implies #[trigger] full_alt()(kept[i]) by {
                all.lemma_filter_pred(full_alt(), i);
            }
            crate::misc::lemma_filter_keeps_all(kept, full_alt());
        }
    }
}

/// The function that unrolls one alternative.
pub open spec fn alt_unroll_fn<C>() -> spec_fn(Seq<LazyGraphV<C>>) -> Seq<Seq<GraphV<C>>> {
    |ls: Seq<LazyGraphV<C>>| alt_unroll(ls)
}

/// Cleaning a lazy graph of empty subtrees keeps the graphs it stands for.
pub proof fn lemma_cl_empty_unroll<C>(l: LazyGraphV<C>)
    ensures
        unroll_v(cl_empty_v(l)) == unroll_v(l),
    decreases l,
{
    if let LazyGraphV::Build(c, lss) = l {
        let all = cl_alt_list_v(lss);
        let kept = cl_alts_v(lss);
        let f = alt_unroll_fn::<C>();
        assert forall|k: int| 0 <= k < lss.len() implies #[trigger] alts_unroll(lss)[k] == f(
            all[k],
        ) by {
            let ls = lss[k];
            assert forall|j: int| 0 <= j < ls.len() implies #[trigger] kid_units(cl_alt_v(ls))[j]
                == kid_units(ls)[j] by {
                lemma_cl_empty_unroll(ls[j]);
            }
            assert(kid_units(cl_alt_v(ls)) =~= kid_units(ls));
        }
        assert(alts_unroll(lss) =~= all.map_values(f));
        assert forall|i: int| 0 <= i < all.len() && !full_alt()(#[trigger] all[i]) implies f(
            all[i],
        ).len() == 0 by {
            {
                let j = choose|j: int| 0 <= j < all[i].len() && (#[trigger] all[i][j]) is Empty;
                assert(kid_units(all[i])[j] == Seq::<GraphV<C>>::empty());
                lemma_cart_with_empty(kid_units(all[i]), j);
            }
        }
        crate::misc::lemma_concat_filter(all, full_alt(), f);
        assert(alts_unroll(kept) =~= kept.map_values(f));
        if kept.len() == 0 {
            assert(kept.map_values(f) =~= Seq::<Seq<Seq<GraphV<C>>>>::empty());
            assert(unroll_v(l) =~= Seq::<GraphV<C>>::empty());
        }
    }
}

} // verus!

verus! {

proof fn lemma_good_forth<C>(p: spec_fn(C) -> bool, c: C, t: Seq<GraphV<C>>)
    requires
        !p(c),
    ensures
        good_graph(p)(GraphV::Forth(c, t)) == all_of(good_graph(p))(t),
{
    let flags = bad_flags(p, t);
    if flags.contains(true) {
        let i = choose|i: int| 0 <= i < flags.len() && flags[i] == true;
        assert(!good_graph(p)(t[i]));
    } else {
        assert forall|i: int| 0 <= i < t.len() implies good_graph(p)(#[trigger] t[i]) by {
            assert(flags[i] == bad_graph_v(p, t[i]));
        }
    }
}

/// Cleaning flagged configurations out of a lazy graph keeps exactly the
/// graphs it stands for that hold no flagged configuration, in order.
pub proof fn lemma_cl_bad_unroll<C>(p: spec_fn(C) -> bool, l: LazyGraphV<C>)
    ensures
        unroll_v(cl_bad_v(p, l)) == fl_bad_v(p, unroll_v(l)),
    decreases l,
{
    let good = good_graph(p);
    reveal(Seq::filter);
    match l {
        LazyGraphV::Empty => {
            assert(fl_bad_v(p, unroll_v(l)) =~= Seq::<GraphV<C>>::empty());
        },
        LazyGraphV::Stop(c) => {
            let g = GraphV::<C>::Back(c);
            assert(seq![g].drop_last() =~= Seq::<GraphV<C>>::empty());
            assert(unroll_v(l) == seq![g]);
            assert(good(g) == !p(c));
            assert(Seq::<GraphV<C>>::empty().filter(good) =~= Seq::<GraphV<C>>::empty());
            if p(c) {
                assert(fl_bad_v(p, unroll_v(l)) =~= Seq::<GraphV<C>>::empty());
            } else {
                assert(fl_bad_v(p, unroll_v(l)) =~= seq![g]);
            }
        },
        LazyGraphV::Build(c, lss) => {
            let parts = alts_unroll(lss);
            let fc = forth_of(c);
            let all = concat_all(parts);
            if p(c) {
                assert forall|k: int| 0 <= k < all.map_values(fc).len() implies !good(
                    #[trigger] all.map_values(fc)[k],
                ) by {
                    assert(bad_graph_v(p, all.map_values(fc)[k]));
                }
                assert(all.map_values(fc).all(|g: GraphV<C>| !good(g)));
                all.map_values(fc).lemma_all_neg_filter_empty(good);
                assert(unroll_v(l) == all.map_values(fc));
                assert(fl_bad_v(p, unroll_v(l)) == all.map_values(fc).filter(good));
                assert(fl_bad_v(p, unroll_v(l)).len() == 0);
                assert(fl_bad_v(p, unroll_v(l)) =~= Seq::<GraphV<C>>::empty());
            } else {
                let ag = all_of(good);
                assert forall|t: Seq<GraphV<C>>| #[trigger] ag(t) == good(fc(t)) by {
                    lemma_good_forth(p, c, t);
                }
                lemma_filter_map(all, fc, good, ag);
                lemma_filter_concat_all(parts, ag);
                let bad_alts = bad_alts_v(p, lss);
                let fparts = parts.map_values(|t: Seq<Seq<GraphV<C>>>| t.filter(ag));
                assert forall|i: int| 0 <= i < lss.len() implies #[trigger] fparts[i] == alts_unroll(
                    bad_alts,
                )[i] by {
                    let ls = lss[i];
                    let u = kid_units(ls);
                    lemma_cart_filter(u, good);
                    let uf = u.map_values(|xs: Seq<GraphV<C>>| xs.filter(good));
                    assert forall|j: int| 0 <= j < ls.len() implies #[trigger] uf[j] == kid_units(
                        bad_alt_v(p, ls),
                    )[j] by {
                        lemma_cl_bad_unroll(p, ls[j]);
                    }
                    assert(uf =~= kid_units(bad_alt_v(p, ls)));
                    assert(parts[i] == cart(u));
                }
                assert(fparts =~= alts_unroll(bad_alts));
            }
        },
    }
}

} // verus!

verus! {

/// The safety filter keeps exactly the graphs with no flagged configuration.
pub proof fn lemma_cl_empty_and_bad_unroll<C>(p: spec_fn(C) -> bool, l: LazyGraphV<C>)
    ensures
        unroll_v(cl_empty_v(cl_bad_v(p, l))) == fl_bad_v(p, unroll_v(l)),
{
    lemma_cl_empty_unroll(cl_bad_v(p, l));
    lemma_cl_bad_unroll(p, l);
}

} // verus!

verus! {

/// The value of a finite size, 0 for the infinite one.
pub open spec fn fin(o: Option<nat>) -> nat {
    match o {
        Some(x) => x,
        None => 0,
    }
}

/// What `sel_min_v` promises of `l`: no size exactly when `l` stands for no
/// graph, and otherwise a lazy graph that stands for one of its graphs, of
/// that size, which no graph of `l` undercuts.
pub open spec fn min_facts<C>(l: LazyGraphV<C>) -> bool {
    let r = sel_min_v(l);
    let gs = unroll_v(l);
    &&& (r.0 is None) == (gs.len() == 0)
    &&& (r.0 is None ==> r.1 == LazyGraphV::<C>::Empty)
    &&& (r.0 matches Some(k) ==> {
        &&& unroll_v(r.1).len() == 1
        &&& gs.contains(unroll_v(r.1)[0])
        &&& graph_size_v(unroll_v(r.1)[0]) == k
        &&& forall|i: int| 0 <= i < gs.len() ==> k <= graph_size_v(#[trigger] gs[i])
    })
}

proof fn lemma_and_v<C>(rs: Seq<(Option<nat>, LazyGraphV<C>)>)
    ensures
        and_v(rs).1 =~= rs.map_values(|r: (Option<nat>, LazyGraphV<C>)| r.1),
        (and_v(rs).0 is None) == (exists|j: int| 0 <= j < rs.len() && (#[trigger] rs[j]).0 is None),
        and_v(rs).0 is Some ==> and_v(rs).0 == Some(
            sum_nat(rs.map_values(|r: (Option<nat>, LazyGraphV<C>)| fin(r.0))),
        ),
    decreases rs.len(),
{
    if rs.len() > 0 {
        let init = rs.drop_last();
        lemma_and_v(init);
        assert(rs.map_values(|r: (Option<nat>, LazyGraphV<C>)| fin(r.0)).drop_last() =~= init.map_values(
            |r: (Option<nat>, LazyGraphV<C>)| fin(r.0),
        ));
        if exists|j: int| 0 <= j < init.len() && (#[trigger] init[j]).0 is None {
            let j = choose|j: int| 0 <= j < init.len() && (#[trigger] init[j]).0 is None;
            assert(rs[j] == init[j]);
        }
        if exists|j: int| 0 <= j < rs.len() && (#[trigger] rs[j]).0 is None {
            let j = choose|j: int| 0 <= j < rs.len() && (#[trigger] rs[j]).0 is None;
            if j < init.len() {
                assert(init[j] == rs[j]);
            }
        }
    }
}

proof fn lemma_prod_ones(s: Seq<nat>)
    requires
        forall|j: int| 0 <= j < s.len() ==> #[trigger] s[j] == 1,
    ensures
        prod_nat(s) == 1,
    decreases s.len(),
{
    if s.len() > 0 {
        lemma_prod_ones(s.drop_first());
    }
}

proof fn lemma_alt_facts<C>(ls: Seq<LazyGraphV<C>>)
    requires
        forall|j: int| 0 <= j < ls.len() ==> min_facts(#[trigger] ls[j]),
    ensures
        ({
            let a = and_v(sel_kids_v(ls));
            let u = kid_units(ls);
            &&& (a.0 is None) == (cart(u).len() == 0)
            &&& (a.0 matches Some(k) ==> {
                let t = cart(kid_units(a.1));
                &&& t.len() == 1
                &&& cart(u).contains(t[0])
                &&& total_size(t[0]) == k
                &&& forall|m: int| 0 <= m < cart(u).len() ==> k <= total_size(#[trigger] cart(u)[m])
            })
        }),
{
    let rs = sel_kids_v(ls);
    let a = and_v(rs);
    let u = kid_units(ls);
    lemma_and_v(rs);
    if a.0 is None {
        let j = choose|j: int| 0 <= j < rs.len() && (#[trigger] rs[j]).0 is None;
        assert(min_facts(ls[j]));
        lemma_cart_with_empty(u, j);
    } else {
        let picks = a.1;
        let ks = rs.map_values(|r: (Option<nat>, LazyGraphV<C>)| fin(r.0));
        let pu = kid_units(picks);
        assert forall|j: int| 0 <= j < ls.len() implies #[trigger] pu[j].len() == 1 && u[j].contains(
            pu[j][0],
        ) && graph_size_v(pu[j][0]) == ks[j] && forall|m: int| 0 <= m < u[j].len() ==> ks[j]
            <= graph_size_v(#[trigger] u[j][m]) by {
            assert(min_facts(ls[j]));
            assert(rs[j].0 is Some);
            assert(picks[j] == rs[j].1);
        }
        let tstar = Seq::new(ls.len(), |j: int| pu[j][0]);
        crate::misc::lemma_cart_len(pu);
        lemma_prod_ones(crate::misc::lens(pu));
        crate::misc::lemma_cart_index(pu, 0);
        assert(cart(pu)[0] =~= tstar);
        crate::misc::lemma_cart_member(u, tstar);
        assert(sizes_v(tstar) =~= ks);
        assert forall|m: int| 0 <= m < cart(u).len() implies a.0->Some_0 <= total_size(
            #[trigger] cart(u)[m],
        ) by {
            crate::misc::lemma_cart_index(u, m);
            let t = cart(u)[m];
            assert forall|j: int| 0 <= j < ks.len() implies #[trigger] ks[j] <= sizes_v(t)[j] by {
                assert(u[j].contains(t[j]));
            }
            crate::misc::lemma_sum_nat_le(ks, sizes_v(t));
        }
    }
}

proof fn lemma_best_v<C>(ars: Seq<Seq<(Option<nat>, LazyGraphV<C>)>>)
    ensures
        (best_v(ars).0 is None) == (forall|i: int| 0 <= i < ars.len() ==> (and_v(#[trigger] ars[i]).0 is None)),
        best_v(ars).0 is Some ==> exists|i: int| 0 <= i < ars.len() && best_v(ars) == and_v(#[trigger] ars[i]),
        best_v(ars).0 matches Some(k) ==> forall|i: int| 0 <= i < ars.len() ==> (and_v(#[trigger] ars[i]).0 matches Some(k2) ==> k <= k2),
    decreases ars.len(),
{
    if ars.len() > 0 {
        let init = ars.drop_last();
        lemma_best_v(init);
        let last = ars.len() - 1;
        assert(ars.last() == ars[last]);
        assert forall|i: int| 0 <= i < init.len() implies #[trigger] init[i] == ars[i] by {}
        let acc = best_v(init);
        let cand = and_v(ars[last]);
        if le_opt(acc.0, cand.0) {
            assert(best_v(ars) == acc);
            if acc.0 is None {
                assert(cand.0 is None);
                assert forall|i: int| 0 <= i < ars.len() implies (and_v(#[trigger] ars[i]).0 is None) by {
                    if i < init.len() {
                        assert(and_v(init[i]).0 is None);
                    }
                }
            } else {
                let i = choose|i: int| 0 <= i < init.len() && acc == and_v(#[trigger] init[i]);
                assert(and_v(ars[i]) == acc);
                let k = acc.0->Some_0;
                assert forall|i: int| 0 <= i < ars.len() implies (and_v(#[trigger] ars[i]).0 matches Some(k2) ==> k <= k2) by {
                    if i < init.len() {
                        assert(and_v(init[i]) == and_v(ars[i]));
                    }
                }
            }
        } else {
            assert(best_v(ars) == cand);
            assert(cand.0 is Some);
            let y = cand.0->Some_0;
            assert forall|i: int| 0 <= i < ars.len() implies (and_v(#[trigger] ars[i]).0 matches Some(k2) ==> y <= k2) by {
                if i < init.len() {
                    assert(and_v(init[i]) == and_v(ars[i]));
                    if acc.0 is None {
                        assert(and_v(init[i]).0 is None);
                    }
                }
            }
        }
    }
}

/// Picking a smallest graph keeps what `min_facts` says.
pub proof fn lemma_sel_min_facts<C>(l: LazyGraphV<C>)
    ensures
        min_facts(l),
    decreases l,
{
    reveal_with_fuel(sum_nat, 2);
    match l {
        LazyGraphV::Empty => {},
        LazyGraphV::Stop(c) => {
            assert(unroll_v(l)[0] == GraphV::<C>::Back(c));
        },
        LazyGraphV::Build(c, lss) => {
            let ars = sel_alts_v(lss);
            let parts = alts_unroll(lss);
            let fc = forth_of(c);
            let gs = unroll_v(l);
            assert forall|i: int| 0 <= i < lss.len() implies ({
                let a = and_v(#[trigger] ars[i]);
                let u = kid_units(lss[i]);
                &&& (a.0 is None) == (cart(u).len() == 0)
                &&& (a.0 matches Some(k) ==> {
                    let t = cart(kid_units(a.1));
                    &&& t.len() == 1
                    &&& cart(u).contains(t[0])
                    &&& total_size(t[0]) == k
                    &&& forall|m: int| 0 <= m < cart(u).len() ==> k <= total_size(#[trigger] cart(u)[m])
                })
                &&& parts[i] == cart(u)
            }) by {
                assert forall|j: int| 0 <= j < lss[i].len() implies min_facts(#[trigger] lss[i][j]) by {
                    lemma_sel_min_facts(lss[i][j]);
                }
                lemma_alt_facts(lss[i]);
            }
            lemma_best_v(ars);
            let best = best_v(ars);
            if best.0 is None {
                assert forall|i: int| 0 <= i < parts.len() implies (#[trigger] parts[i]).len() == 0 by {
                    assert(and_v(ars[i]).0 is None);
                }
                crate::misc::lemma_concat_all_of_empties(parts);
            } else {
                let k = best.0->Some_0;
                let i0 = choose|i: int| 0 <= i < ars.len() && best == and_v(#[trigger] ars[i]);
                let picks = best.1;
                let t1 = cart(kid_units(picks));
                let sel = LazyGraphV::Build(c, seq![picks]);
                assert(alts_unroll(seq![picks]) =~= seq![t1]);
                crate::misc::lemma_concat_all_push(Seq::<Seq<Seq<GraphV<C>>>>::empty(), t1);
                assert(seq![t1] =~= Seq::<Seq<Seq<GraphV<C>>>>::empty().push(t1));
                assert(concat_all(Seq::<Seq<Seq<GraphV<C>>>>::empty()) =~= Seq::<Seq<GraphV<C>>>::empty());
                assert(concat_all(seq![t1]) =~= t1);
                assert(unroll_v(sel) =~= t1.map_values(fc));
                let tstar = t1[0];
                assert(graph_size_v(fc(tstar)) == 1 + total_size(tstar));
                let u0 = kid_units(lss[i0]);
                let m0 = choose|m: int| 0 <= m < cart(u0).len() && cart(u0)[m] == tstar;
                assert(parts[i0][m0] == tstar);
                crate::misc::lemma_concat_all_member(parts, i0, m0);
                let q0 = choose|q: int| 0 <= q < concat_all(parts).len() && concat_all(parts)[q] == tstar;
                assert(gs[q0] == fc(tstar));
                assert forall|q: int| 0 <= q < gs.len() implies k + 1 <= graph_size_v(#[trigger] gs[q]) by {
                    let (i, m) = crate::misc::lemma_concat_all_index(parts, q);
                    let u = kid_units(lss[i]);
                    let t = parts[i][m];
                    assert(cart(u).len() > 0);
                    assert(and_v(ars[i]).0 is Some);
                    assert(gs[q] == fc(t));
                }
            }
        },
    }
}

/// A smallest graph: when `l` stands for some graph, the cleaner's result
/// stands for exactly one of them, no larger than any other; when it stands
/// for none, neither does the result.
pub proof fn lemma_cl_min_size_unroll<C>(l: LazyGraphV<C>)
    ensures
        unroll_v(l).len() == 0 ==> unroll_v(sel_min_v(l).1).len() == 0,
        unroll_v(l).len() > 0 ==> {
            let m = unroll_v(sel_min_v(l).1);
            &&& m.len() == 1
            &&& unroll_v(l).contains(m[0])
            &&& forall|i: int| 0 <= i < unroll_v(l).len() ==> graph_size_v(m[0]) <= graph_size_v(
                #[trigger] unroll_v(l)[i],
            )
        },
{
    lemma_sel_min_facts(l);
}

} // verus!
