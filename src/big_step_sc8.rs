//! Lazy, possibly infinite graphs of configurations, whose alternatives are
//! computed on demand, at most once, and their pruning into finite lazy
//! graphs by the whistle of a world.
use std::rc::Rc;
use vstd::prelude::*;

use crate::big_step_sc::{foldable_to_history, ScWorld};
use crate::graph::{build, empty, lemma_build_view, stop, LazyGraph, LazyGraphV, Ls};
use crate::misc::{clone_exact, vv, History};

verus! {

/// The alternatives of a `Build8` node: computed by a thunk when first asked
/// for, then kept.
#[verifier::external_body]
#[verifier::reject_recursive_types(C)]
pub struct Alts8<C: Clone> {
    cell: Rc<lazy_st::Lazy<Vec<L8s<C>>>>,
}

/// A lazy graph that may be infinite: the alternatives of a `Build8` node
/// are computed on demand.
#[verifier::reject_recursive_types(C)]
pub enum LazyGraph8<C: Clone> {
    Empty8(),
    Stop8(C),
    Build8(C, Alts8<C>),
}

pub type L8s<C> = Vec<Rc<LazyGraph8<C>>>;

/// Relies on lazy-st's `Thunk::new`: `f` is kept, to be run when the
/// alternatives are first asked for.
#[verifier::external_body]
pub fn delay8<C: Clone + 'static, F: FnOnce() -> Vec<L8s<C>> + 'static>(f: F) -> (r: Alts8<C>)
    requires
        f.requires(()),
{
    Alts8 { cell: Rc::new(lazy_st::Thunk::new(Box::new(f))) }
}

/// Relies on lazy-st's `Deref` for `Thunk`: forces the thunk once and keeps
/// its value.
#[verifier::external_body]
pub fn force8<C: Clone>(a: &Alts8<C>) -> (r: &Vec<L8s<C>>) {
    &**a.cell
}

} // verus!

verus! {

/// The lazy graph `Empty8`.
pub fn empty8<C: Clone>() -> (r: Rc<LazyGraph8<C>>)
    ensures
        *r is Empty8,
{
    Rc::new(LazyGraph8::Empty8())
}

/// The lazy graph `Stop8(c)`.
pub fn stop8<C: Clone>(c: &C) -> (r: Rc<LazyGraph8<C>>)
    requires
        clone_exact::<C>(),
    ensures
        *r is Stop8 && r->Stop8_0 == *c,
{
    Rc::new(LazyGraph8::Stop8(c.clone()))
}

/// The lazy graph `Build8(c, l8ss)`.
pub fn build8<C: Clone>(c: &C, l8ss: Alts8<C>) -> (r: Rc<LazyGraph8<C>>)
    requires
        clone_exact::<C>(),
    ensures
        *r is Build8 && r->Build8_0 == *c,
{
    Rc::new(LazyGraph8::Build8(c.clone(), l8ss))
}

/// The node that the drivers put at `c` under history `h`: a fold, nothing
/// under the whistle, or a node to develop.
pub open spec fn top8<S: ScWorld>(s: S, h: Seq<S::C>, c: S::C, l: LazyGraph8<S::C>) -> bool {
    if foldable_to_history(s, c, h) {
        l is Stop8 && l->Stop8_0 == c
    } else if s.dangerous(h) {
        l is Empty8
    } else {
        l is Build8 && l->Build8_0 == c
    }
}

fn build_graph8_loop<S: ScWorld + 'static>(s: &'static S, h: &History<S::C>, c: &S::C) -> (r: Rc<
    LazyGraph8<S::C>,
>) where S::C: 'static
    requires
        clone_exact::<S::C>(),
        h@.len() <= s.depth_bound(),
    ensures
        top8(*s, h@, *c, *r),
    decreases s.depth_bound() - h@.len(), 1nat,
{
    if s.is_foldable_to_history(c, h) {
        stop8(c)
    } else if s.is_dangerous(h) {
        empty8()
    } else {
        proof {
            if h@.len() >= s.depth_bound() {
                s.lemma_whistle_bound(h@);
            }
        }
        let css = s.develop(c);
        let h1 = h.cons(c.clone());
        let ghost n = h@.len();
        let alts = (move || -> (r: Vec<L8s<S::C>>)
            requires
                clone_exact::<S::C>(),
                n < s.depth_bound(),
                h1@.len() == n + 1,
            { build_alts8(s, &h1, &css) });
        let l8ss = delay8(alts);
        build8(c, l8ss)
    }
}

/// The lazy graphs of the children of each alternative, under history `h`.
fn build_alts8<S: ScWorld + 'static>(s: &'static S, h: &History<S::C>, css: &Vec<Vec<S::C>>) -> (r: Vec<
    L8s<S::C>,
>) where S::C: 'static
    requires
        clone_exact::<S::C>(),
        1 <= h@.len() <= s.depth_bound(),
    ensures
        r.len() == css.len(),
    decreases s.depth_bound() - h@.len() + 1, 0nat,
{
    let mut r: Vec<L8s<S::C>> = Vec::new();
    let mut i: usize = 0;
    while i < css.len()
        invariant
            clone_exact::<S::C>(),
            1 <= h@.len() <= s.depth_bound(),
            i <= css.len(),
            r.len() == i,
        decreases css.len() - i,
    {
        let cs = &css[i];
        let mut ls: L8s<S::C> = Vec::new();
        let mut j: usize = 0;
        while j < cs.len()
            invariant
                clone_exact::<S::C>(),
                1 <= h@.len() <= s.depth_bound(),
                j <= cs.len(),
            decreases cs.len() - j,
        {
            ls.push(build_graph8_loop(s, h, &cs[j]));
            j = j + 1;
        }
        r.push(ls);
        i = i + 1;
    }
    r
}

/// The lazy graph of `c0`, its alternatives computed on demand. The whistle
/// is checked here too, so no thunk is made where it blows.
pub fn build_graph8<S: ScWorld + 'static>(s: &'static S, c0: &S::C) -> (r: Rc<LazyGraph8<S::C>>) where
    S::C: 'static,

    requires
        clone_exact::<S::C>(),
    ensures
        s.dangerous(Seq::empty()) ==> *r is Empty8,
        !s.dangerous(Seq::empty()) ==> *r is Build8 && r->Build8_0 == *c0,
{
    let r = build_graph8_loop(s, &History::new(), c0);
    assert(!foldable_to_history(*s, *c0, Seq::<S::C>::empty()));
    r
}

/// What pruning at history `h` makes of the root of `l`.
pub open spec fn pruned_top<S: ScWorld>(s: S, h: Seq<S::C>, l: LazyGraph8<S::C>, r: LazyGraphV<S::C>) -> bool {
    &&& (l is Empty8 ==> r == LazyGraphV::<S::C>::Empty)
    &&& (l is Stop8 ==> r == LazyGraphV::Stop(l->Stop8_0))
    &&& (l is Build8 ==> (if s.dangerous(h) {
        r == LazyGraphV::<S::C>::Empty
    } else {
        r is Build && r->Build_0 == l->Build8_0
    }))
}

fn prune_graph8_loop<S: ScWorld>(s: &S, h: &History<S::C>, l: &LazyGraph8<S::C>) -> (r: Rc<
    LazyGraph<S::C>,
>)
    requires
        clone_exact::<S::C>(),
        h@.len() <= s.depth_bound(),
    ensures
        pruned_top(*s, h@, *l, r@),
    decreases s.depth_bound() - h@.len(),
{
    match l {
        LazyGraph8::Empty8() => empty(),
        LazyGraph8::Stop8(c) => stop(c),
        LazyGraph8::Build8(c, l8ss) => {
            if s.is_dangerous(h) {
                empty()
            } else {
                proof {
                    if h@.len() >= s.depth_bound() {
                        s.lemma_whistle_bound(h@);
                    }
                }
                let h1 = h.cons(c.clone());
                let alts = force8(l8ss);
                let mut lss: Vec<Ls<S::C>> = Vec::new();
                let mut i: usize = 0;
                while i < alts.len()
                    invariant
                        clone_exact::<S::C>(),
                        h1@.len() == h@.len() + 1 <= s.depth_bound(),
                        i <= alts.len(),
                    decreases alts.len() - i,
                {
                    let ls = &alts[i];
                    let mut ls1: Ls<S::C> = Vec::new();
                    let mut j: usize = 0;
                    while j < ls.len()
                        invariant
                            clone_exact::<S::C>(),
                            h1@.len() == h@.len() + 1 <= s.depth_bound(),
                            j <= ls.len(),
                        decreases ls.len() - j,
                    {
                        ls1.push(prune_graph8_loop(s, &h1, &ls[j]));
                        j = j + 1;
                    }
                    lss.push(ls1);
                    i = i + 1;
                }
                build(c, lss.as_slice())
            }
        },
    }
}

/// The finite lazy graph that the whistle of `s` cuts out of `l0`.
pub fn prune_graph8<S: ScWorld>(s: &S, l0: &LazyGraph8<S::C>) -> (r: Rc<LazyGraph<S::C>>)
    requires
        clone_exact::<S::C>(),
    ensures
        pruned_top(*s, Seq::empty(), *l0, r@),
{
    prune_graph8_loop(s, &History::new(), l0)
}

fn is_empty8<C: Clone>(l: &LazyGraph8<C>) -> (r: bool)
    ensures
        r == (*l is Empty8),
{
    match l {
        LazyGraph8::Empty8() => true,
        _ => false,
    }
}

/// Whether an alternative has an `Empty8` child.
fn has_empty8<C: Clone>(ls: &L8s<C>) -> (r: bool)
    ensures
        r == exists|j: int| 0 <= j < ls.len() && *(#[trigger] ls@[j]) is Empty8,
{
    let mut j: usize = 0;
    while j < ls.len()
        invariant
            j <= ls.len(),
            forall|k: int| 0 <= k < j ==> !(*(#[trigger] ls@[k]) is Empty8),
        decreases ls.len() - j,
    {
        if is_empty8(&ls[j]) {
            return true;
        }
        j = j + 1;
    }
    false
}

fn prune_loop<S: ScWorld>(s: &S, h: &History<S::C>, l: &LazyGraph8<S::C>) -> (r: Rc<
    LazyGraph<S::C>,
>)
    requires
        clone_exact::<S::C>(),
        h@.len() <= s.depth_bound(),
    ensures
        pruned_top(*s, h@, *l, r@),
    decreases s.depth_bound() - h@.len(),
{
    match l {
        LazyGraph8::Empty8() => empty(),
        LazyGraph8::Stop8(c) => stop(c),
        LazyGraph8::Build8(c, l8ss) => {
            if s.is_dangerous(h) {
                empty()
            } else {
                proof {
                    if h@.len() >= s.depth_bound() {
                        s.lemma_whistle_bound(h@);
                    }
                }
                let h1 = h.cons(c.clone());
                let alts = force8(l8ss);
                let mut lss: Vec<Ls<S::C>> = Vec::new();
                let mut i: usize = 0;
                while i < alts.len()
                    invariant
                        clone_exact::<S::C>(),
                        h1@.len() == h@.len() + 1 <= s.depth_bound(),
                        i <= alts.len(),
                    decreases alts.len() - i,
                {
                    let ls = &alts[i];
                    if !has_empty8(ls) {
                        let mut ls1: Ls<S::C> = Vec::new();
                        let mut j: usize = 0;
                        while j < ls.len()
                            invariant
                                clone_exact::<S::C>(),
                                h1@.len() == h@.len() + 1 <= s.depth_bound(),
                                j <= ls.len(),
                            decreases ls.len() - j,
                        {
                            ls1.push(prune_loop(s, &h1, &ls[j]));
                            j = j + 1;
                        }
                        lss.push(ls1);
                    }
                    i = i + 1;
                }
                build(c, lss.as_slice())
            }
        },
    }
}

/// `prune_graph8` with the alternatives that hold an `Empty8` child dropped
/// before they are explored.
pub fn prune<S: ScWorld>(s: &S, l0: &LazyGraph8<S::C>) -> (r: Rc<LazyGraph<S::C>>)
    requires
        clone_exact::<S::C>(),
    ensures
        pruned_top(*s, Seq::empty(), *l0, r@),
{
    prune_loop(s, &History::new(), l0)
}

} // verus!
