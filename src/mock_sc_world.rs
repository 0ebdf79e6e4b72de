//! A small world over integers: `c` folds only to itself, histories longer
//! than three blow the whistle, and `c` develops into `[0, c - 1]` and
//! `[c - 1]` from 2 on, and always into `[c + 1]`.
use vstd::prelude::*;

use crate::big_step_sc::ScWorld;
use crate::misc::{vv, History};

verus! {

/// The ways of driving `c`.
pub open spec fn drive_v(c: isize) -> Seq<Seq<isize>> {
    if c < 2 {
        Seq::empty()
    } else {
        seq![seq![0isize, c.wrapping_sub(1)], seq![c.wrapping_sub(1)]]
    }
}

/// The ways of rebuilding `c`.
pub open spec fn rebuild_v(c: isize) -> Seq<Seq<isize>> {
    seq![seq![c.wrapping_add(1)]]
}

fn drive(c: &isize) -> (r: Vec<Vec<isize>>)
    ensures
        vv(r) == drive_v(*c),
{
    if *c < 2 {
        let r: Vec<Vec<isize>> = Vec::new();
        assert(vv(r) =~= drive_v(*c));
        r
    } else {
        let r = vec![vec![0, c.wrapping_sub(1)], vec![c.wrapping_sub(1)]];
        assert(vv(r)[0] =~= drive_v(*c)[0]);
        assert(vv(r)[1] =~= drive_v(*c)[1]);
        assert(vv(r) =~= drive_v(*c));
        r
    }
}

fn rebuild(c: &isize) -> (r: Vec<Vec<isize>>)
    ensures
        vv(r) == rebuild_v(*c),
{
    let r = vec![vec![c.wrapping_add(1)]];
    assert(vv(r)[0] =~= rebuild_v(*c)[0]);
    assert(vv(r) =~= rebuild_v(*c));
    r
}

impl ScWorld for isize {
    type C = isize;

    open spec fn dangerous(&self, h: Seq<isize>) -> bool {
        h.len() > 3
    }

    open spec fn foldable(&self, c1: isize, c2: isize) -> bool {
        c1 == c2
    }

    open spec fn developed(&self, c: isize) -> Seq<Seq<isize>> {
        drive_v(c) + rebuild_v(c)
    }

    open spec fn depth_bound(&self) -> nat {
        4
    }

    open spec fn develop_is_exact(&self) -> bool {
        true
    }

    proof fn lemma_whistle_bound(&self, h: Seq<isize>) {
    }

    fn is_dangerous(&self, h: &History<isize>) -> (r: bool) {
        h.length() > 3
    }

    fn is_foldable_to(&self, c1: &isize, c2: &isize) -> (r: bool) {
        *c1 == *c2
    }

    fn develop(&self, c: &isize) -> (r: Vec<Vec<isize>>) {
        let mut r = drive(c);
        let mut more = rebuild(c);
        let ghost d = vv(r);
        r.append(&mut more);
        assert(vv(r) =~= d + rebuild_v(*c));
        r
    }
}

} // verus!
