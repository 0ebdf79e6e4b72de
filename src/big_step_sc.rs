//! Worlds of supercompilation and the big-step drivers: `naive_mrsc`, which
//! builds every residual graph at once, and `lazy_mrsc`, which records the
//! choices in a lazy graph.
use std::rc::Rc;
use vstd::prelude::*;

use crate::graph::{
    back, build, empty, forth, forth_of, gsv, lemma_tuples_view, lsv, lssv, stop, unroll_v,
    alts_unroll, alt_unroll, kid_units, GraphV, Gs, LazyGraph, LazyGraphV, Ls,
};
use crate::misc::{cart, cartesian_rc, clone_exact, concat_all, lemma_concat_all_take, vv, History};

verus! {

broadcast use vstd::std_specs::vec::group_vec_axioms, vstd::seq_lib::group_seq_properties;

/// What a supercompiler needs to know of the language it works on.
pub trait ScWorld: Sized {
    /// Configurations.
    type C: Clone;

    /// The whistle on a history (newest configuration first).
    spec fn dangerous(&self, h: Seq<Self::C>) -> bool;

    /// Whether the first configuration folds to the second.
    spec fn foldable(&self, c1: Self::C, c2: Self::C) -> bool;

    /// The ways of developing a configuration, each a list of children.
    spec fn developed(&self, c: Self::C) -> Seq<Seq<Self::C>>;

    /// A history length at which the whistle always blows.
    spec fn depth_bound(&self) -> nat;

    /// Whether `develop` is stated exactly by `developed`: configurations
    /// that hold vectors have no equality that a model could state.
    spec fn develop_is_exact(&self) -> bool;

    /// The whistle blows on every history of `depth_bound` items or more.
    proof fn lemma_whistle_bound(&self, h: Seq<Self::C>)
        requires
            h.len() >= self.depth_bound(),
        ensures
            self.dangerous(h),
    ;

    fn is_dangerous(&self, h: &History<Self::C>) -> (r: bool)
        requires
            h@.len() <= self.depth_bound(),
        ensures
            r == self.dangerous(h@),
    ;

    fn is_foldable_to(&self, c1: &Self::C, c2: &Self::C) -> (r: bool)
        ensures
            r == self.foldable(*c1, *c2),
    ;

    fn develop(&self, c: &Self::C) -> (r: Vec<Vec<Self::C>>)
        ensures
            self.develop_is_exact() ==> vv(r) == self.developed(*c),
    ;

    /// Whether `c` folds to some configuration of `h`.
    fn is_foldable_to_history(&self, c: &Self::C, h: &History<Self::C>) -> (r: bool)
        ensures
            r == exists|i: int| 0 <= i < h@.len() && self.foldable(*c, #[trigger] h@[i]),
    {
        let folds_to = (|c2: &Self::C| -> (b: bool)
            ensures
                b == self.foldable(*c, *c2),
            { self.is_foldable_to(c, c2) });
        h.any(folds_to)
    }
}

/// Whether `c` folds to some configuration of `h`.
pub open spec fn foldable_to_history<S: ScWorld>(s: S, c: S::C, h: Seq<S::C>) -> bool {
    exists|i: int| 0 <= i < h.len() && s.foldable(c, #[trigger] h[i])
}

/// The graphs of each child of `c`, developed one level below history `h`.
pub open spec fn naive_kids<S: ScWorld>(s: S, h: Seq<S::C>, c: S::C, cs: Seq<S::C>) -> Seq<
    Seq<GraphV<S::C>>,
>
    decreases s.depth_bound() - h.len(), 0nat,
{
    if h.len() < s.depth_bound() {
        Seq::new(
            cs.len(),
            |j: int|
                if 0 <= j < cs.len() {
                    naive_v(s, seq![c] + h, cs[j])
                } else {
                    Seq::empty()
                },
        )
    } else {
        Seq::empty()
    }
}

/// For each way of developing `c`, the lists of children it gives.
pub open spec fn naive_parts<S: ScWorld>(s: S, h: Seq<S::C>, c: S::C) -> Seq<Seq<Seq<GraphV<S::C>>>>
    decreases s.depth_bound() - h.len(), 1nat,
{
    let css = s.developed(c);
    Seq::new(
        css.len(),
        |i: int|
            if 0 <= i < css.len() {
                cart(naive_kids(s, h, c, css[i]))
            } else {
                Seq::empty()
            },
    )
}

/// The residual graphs of `c` under history `h`.
pub open spec fn naive_v<S: ScWorld>(s: S, h: Seq<S::C>, c: S::C) -> Seq<GraphV<S::C>>
    decreases s.depth_bound() - h.len(), 2nat,
{
    if foldable_to_history(s, c, h) {
        seq![GraphV::Back(c)]
    } else if s.dangerous(h) || h.len() >= s.depth_bound() {
        Seq::empty()
    } else {
        concat_all(naive_parts(s, h, c)).map_values(forth_of(c))
    }
}

/// The lazy graphs of each child of `c`, one level below history `h`.
pub open spec fn lazy_kids<S: ScWorld>(s: S, h: Seq<S::C>, c: S::C, cs: Seq<S::C>) -> Seq<
    LazyGraphV<S::C>,
>
    decreases s.depth_bound() - h.len(), 0nat,
{
    if h.len() < s.depth_bound() {
        Seq::new(
            cs.len(),
            |j: int|
                if 0 <= j < cs.len() {
                    lazy_v(s, seq![c] + h, cs[j])
                } else {
                    LazyGraphV::Empty
                },
        )
    } else {
        Seq::empty()
    }
}

/// The alternatives of the `Build` node for `c`.
pub open spec fn lazy_alts<S: ScWorld>(s: S, h: Seq<S::C>, c: S::C) -> Seq<Seq<LazyGraphV<S::C>>>
    decreases s.depth_bound() - h.len(), 1nat,
{
    let css = s.developed(c);
    Seq::new(
        css.len(),
        |i: int|
            if 0 <= i < css.len() {
                lazy_kids(s, h, c, css[i])
            } else {
                Seq::empty()
            },
    )
}

/// The lazy graph of `c` under history `h`.
pub open spec fn lazy_v<S: ScWorld>(s: S, h: Seq<S::C>, c: S::C) -> LazyGraphV<S::C>
    decreases s.depth_bound() - h.len(), 2nat,
{
    if foldable_to_history(s, c, h) {
        LazyGraphV::Stop(c)
    } else if s.dangerous(h) || h.len() >= s.depth_bound() {
        LazyGraphV::Empty
    } else {
        LazyGraphV::Build(c, lazy_alts(s, h, c))
    }
}

/// Whether the results of the drivers can be stated exactly: clones of
/// configurations are equal to them, and `develop` is stated by `developed`.
pub open spec fn exact_world<S: ScWorld>(s: S) -> bool {
    clone_exact::<S::C>() && s.develop_is_exact()
}

fn naive_mrsc_loop<S: ScWorld>(s: &S, h: &History<S::C>, c: S::C) -> (r: Gs<S::C>)
    requires
        h@.len() <= s.depth_bound(),
    ensures
        exact_world(*s) ==> gsv(r@) == naive_v(*s, h@, c),
    decreases s.depth_bound() - h@.len(),
{
    let ghost exact = exact_world(*s);
    if s.is_foldable_to_history(&c, h) {
        let r = vec![back(&c)];
        assert(exact ==> gsv(r@) =~= naive_v(*s, h@, c));
        r
    } else if s.is_dangerous(h) {
        let r: Gs<S::C> = Vec::new();
        assert(gsv(r@) =~= naive_v(*s, h@, c));
        r
    } else {
        proof {
            if h@.len() >= s.depth_bound() {
                s.lemma_whistle_bound(h@);
            }
        }
        let css = s.develop(&c);
        let h1 = h.cons(c.clone());
        let ghost parts = naive_parts(*s, h@, c);
        let ghost fc = forth_of(c);
        let mut r: Gs<S::C> = Vec::new();
        let mut i: usize = 0;
        while i < css.len()
            invariant
                exact == exact_world(*s),
                i <= css.len(),
                h@.len() < s.depth_bound(),
                h1@.len() == h@.len() + 1,
                exact ==> h1@ == seq![c] + h@,
                exact ==> vv(css) == s.developed(c),
                parts == naive_parts(*s, h@, c),
                exact ==> parts.len() == css.len(),
                fc == forth_of(c),
                exact ==> gsv(r@) == concat_all(parts.take(i as int)).map_values(fc),
            decreases css.len() - i,
        {
            let cs = &css[i];
            let ghost units = naive_kids(*s, h@, c, cs@);
            assert(exact ==> cs@ == s.developed(c)[i as int]);
            assert(exact ==> parts[i as int] == cart(units));
            let mut gss: Vec<Gs<S::C>> = Vec::new();
            let mut j: usize = 0;
            while j < cs.len()
                invariant
                    exact == exact_world(*s),
                    j <= cs.len(),
                    h@.len() < s.depth_bound(),
                    h1@.len() == h@.len() + 1,
                    exact ==> h1@ == seq![c] + h@,
                    units == naive_kids(*s, h@, c, cs@),
                    units.len() == cs.len(),
                    gss.len() == j,
                    exact ==> forall|jj: int| 0 <= jj < j ==> gsv(#[trigger] gss@[jj]@) == units[jj],
                decreases cs.len() - j,
            {
                let gs = naive_mrsc_loop(s, &h1, cs[j].clone());
                gss.push(gs);
                j = j + 1;
            }
            let tuples = cartesian_rc(&gss);
            proof {
                if exact {
                    lemma_tuples_view(units, gss, tuples);
                }
            }
            let ghost base = gsv(r@);
            let mut k: usize = 0;
            while k < tuples.len()
                invariant
                    exact == exact_world(*s),
                    k <= tuples.len(),
                    i < css.len(),
                    fc == forth_of(c),
                    exact ==> parts.len() == css.len(),
                    exact ==> tuples.len() == parts[i as int].len(),
                    exact ==> forall|kk: int| 0 <= kk < tuples.len() ==> gsv(#[trigger] tuples@[kk]@) == parts[i as int][kk],
                    exact ==> gsv(r@) == base + parts[i as int].take(k as int).map_values(fc),
                decreases tuples.len() - k,
            {
                let g = forth(&c, tuples[k].as_slice());
                let ghost before = r@;
                r.push(g);
                proof {
                    if exact {
                        assert(gsv(r@) =~= gsv(before).push(g@));
                        assert(parts[i as int].take(k + 1).map_values(fc) =~= parts[i as int].take(
                            k as int,
                        ).map_values(fc).push(fc(parts[i as int][k as int])));
                    }
                }
                k = k + 1;
                assert(exact ==> gsv(r@) =~= base + parts[i as int].take(k as int).map_values(fc));
            }
            proof {
                if exact {
                    assert(parts[i as int].take(k as int) =~= parts[i as int]);
                    lemma_concat_all_take(parts, i as int);
                    assert(concat_all(parts.take(i + 1)).map_values(fc) =~= concat_all(
                        parts.take(i as int),
                    ).map_values(fc) + parts[i as int].map_values(fc));
                }
            }
            i = i + 1;
        }
        assert(exact ==> parts.take(i as int) =~= parts);
        r
    }
}

/// Every residual graph of `c0`, with the Cartesian products built at once.
pub fn naive_mrsc<S: ScWorld>(s: &S, c0: S::C) -> (r: Gs<S::C>)
    ensures
        exact_world(*s) ==> gsv(r@) == naive_v(*s, Seq::empty(), c0),
{
    naive_mrsc_loop(s, &History::new(), c0)
}

fn lazy_mrsc_loop<S: ScWorld>(s: &S, h: &History<S::C>, c: S::C) -> (r: Rc<LazyGraph<S::C>>)
    requires
        h@.len() <= s.depth_bound(),
    ensures
        exact_world(*s) ==> r@ == lazy_v(*s, h@, c),
    decreases s.depth_bound() - h@.len(),
{
    let ghost exact = exact_world(*s);
    if s.is_foldable_to_history(&c, h) {
        stop(&c)
    } else if s.is_dangerous(h) {
        empty()
    } else {
        proof {
            if h@.len() >= s.depth_bound() {
                s.lemma_whistle_bound(h@);
            }
        }
        let css = s.develop(&c);
        let h1 = h.cons(c.clone());
        let ghost want = lazy_alts(*s, h@, c);
        let mut lss: Vec<Ls<S::C>> = Vec::new();
        let mut i: usize = 0;
        while i < css.len()
            invariant
                exact == exact_world(*s),
                i <= css.len(),
                h@.len() < s.depth_bound(),
                h1@.len() == h@.len() + 1,
                exact ==> h1@ == seq![c] + h@,
                exact ==> vv(css) == s.developed(c),
                want == lazy_alts(*s, h@, c),
                exact ==> want.len() == css.len(),
                exact ==> lssv(lss@) == want.take(i as int),
            decreases css.len() - i,
        {
            let cs = &css[i];
            let ghost wi = lazy_kids(*s, h@, c, cs@);
            assert(exact ==> cs@ == s.developed(c)[i as int]);
            assert(exact ==> want[i as int] == wi);
            let mut ls: Ls<S::C> = Vec::new();
            let mut j: usize = 0;
            while j < cs.len()
                invariant
                    exact == exact_world(*s),
                    j <= cs.len(),
                    h@.len() < s.depth_bound(),
                    h1@.len() == h@.len() + 1,
                    exact ==> h1@ == seq![c] + h@,
                    wi == lazy_kids(*s, h@, c, cs@),
                    wi.len() == cs.len(),
                    exact ==> lsv(ls@) == wi.take(j as int),
                decreases cs.len() - j,
            {
                let l1 = lazy_mrsc_loop(s, &h1, cs[j].clone());
                let ghost before = ls@;
                ls.push(l1);
                assert(lsv(ls@) =~= lsv(before).push(l1@));
                j = j + 1;
                assert(exact ==> lsv(ls@) =~= wi.take(j as int));
            }
            assert(exact ==> wi.take(j as int) =~= wi);
            let ghost before = lss@;
            lss.push(ls);
            assert(lssv(lss@) =~= lssv(before).push(lsv(ls@)));
            i = i + 1;
            assert(exact ==> lssv(lss@) =~= want.take(i as int));
        }
        assert(exact ==> want.take(i as int) =~= want);
        build(&c, lss.as_slice())
    }
}

/// The lazy graph of `c0`: the choices recorded, the products deferred.
pub fn lazy_mrsc<S: ScWorld>(s: &S, c0: S::C) -> (r: Rc<LazyGraph<S::C>>)
    ensures
        exact_world(*s) ==> r@ == lazy_v(*s, Seq::empty(), c0),
        exact_world(*s) ==> unroll_v(r@) == naive_v(*s, Seq::empty(), c0),
{
    proof {
        lemma_unroll_lazy_mrsc(*s, c0);
    }
    lazy_mrsc_loop(s, &History::new(), c0)
}

} // verus!

verus! {

/// Unrolling the lazy graph built under history `h` gives exactly the graphs
/// that the naive driver builds under `h`.
pub proof fn lemma_unroll_lazy_mrsc_from<S: ScWorld>(s: S, h: Seq<S::C>, c: S::C)
    ensures
        unroll_v(lazy_v(s, h, c)) == naive_v(s, h, c),
    decreases s.depth_bound() - h.len(),
{
    if !foldable_to_history(s, c, h) && !(s.dangerous(h) || h.len() >= s.depth_bound()) {
        let css = s.developed(c);
        let alts = lazy_alts(s, h, c);
        let parts = naive_parts(s, h, c);
        assert forall|i: int| 0 <= i < css.len() implies #[trigger] alts_unroll(alts)[i]
            == parts[i] by {
            let kids = lazy_kids(s, h, c, css[i]);
            let units = naive_kids(s, h, c, css[i]);
            assert(alts[i] == kids);
            assert forall|j: int| 0 <= j < css[i].len() implies #[trigger] kid_units(kids)[j]
                == units[j] by {
                lemma_unroll_lazy_mrsc_from(s, seq![c] + h, css[i][j]);
            }
            assert(kid_units(kids) =~= units);
            assert(alts_unroll(alts)[i] == alt_unroll(kids));
        }
        assert(alts_unroll(alts) =~= parts);
    }
}

/// The staged driver is a staging of the naive one: unrolling the lazy graph
/// of `c` gives every residual graph of `c`, in the same order.
pub proof fn lemma_unroll_lazy_mrsc<S: ScWorld>(s: S, c: S::C)
    ensures
        unroll_v(lazy_v(s, Seq::empty(), c)) == naive_v(s, Seq::empty(), c),
{
    lemma_unroll_lazy_mrsc_from(s, Seq::empty(), c);
}

} // verus!
