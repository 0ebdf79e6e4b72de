//! Counting the graphs that a lazy graph stands for, and their nodes,
//! without unrolling it.
use vstd::prelude::*;

use crate::graph::{
    alt_unroll, alts_unroll, forth_of, graph_size_v, kid_units, lemma_build_view, lsv, lssv,
    sizes_v, unroll_v, GraphV, LazyGraph, LazyGraphV, Ls,
};
use crate::misc::{
    all_set, cart, concat_all, lemma_cart_len, lemma_concat_all_len, lemma_concat_all_map,
    lemma_sum_affine, lemma_sum_concat_all, lemma_sum_nat_add, lemma_sum_nat_take, lemma_sum_shift,
    lens, prod_nat, sum_nat,
};

verus! {

broadcast use vstd::std_specs::vec::group_vec_axioms, vstd::seq_lib::group_seq_properties;

/// The counts of the children of one alternative.
pub open spec fn counts_of<C>(ls: Seq<LazyGraphV<C>>) -> Seq<nat>
    decreases ls, 0nat,
{
    Seq::new(
        ls.len(),
        |j: int|
            if 0 <= j < ls.len() {
                count_v(ls[j])
            } else {
                0
            },
    )
}

/// The number of graphs each alternative stands for.
pub open spec fn alt_counts<C>(lss: Seq<Seq<LazyGraphV<C>>>) -> Seq<nat>
    decreases lss, 1nat,
{
    Seq::new(
        lss.len(),
        |i: int|
            if 0 <= i < lss.len() {
                prod_nat(counts_of(lss[i]))
            } else {
                0
            },
    )
}

/// The number of graphs a lazy graph stands for: a sum over alternatives of
/// products over children.
pub open spec fn count_v<C>(l: LazyGraphV<C>) -> nat
    decreases l, 2nat,
{
    match l {
        LazyGraphV::Empty => 0,
        LazyGraphV::Stop(_) => 1,
        LazyGraphV::Build(_, lss) => sum_nat(alt_counts(lss)),
    }
}

/// The node total of the tuples of one alternative, from the counts `ks`
/// and node totals `ns` of its children.
pub open spec fn tuple_nodes(ks: Seq<nat>, ns: Seq<nat>) -> nat
    decreases ks.len(),
{
    if ks.len() == 0 || ns.len() == 0 {
        0
    } else {
        prod_nat(ks.drop_first()) * ns[0] + ks[0] * tuple_nodes(ks.drop_first(), ns.drop_first())
    }
}

/// The node totals of the children of one alternative.
pub open spec fn nodes_of<C>(ls: Seq<LazyGraphV<C>>) -> Seq<nat>
    decreases ls, 0nat,
{
    Seq::new(
        ls.len(),
        |j: int|
            if 0 <= j < ls.len() {
                nodes_v(ls[j])
            } else {
                0
            },
    )
}

/// The node total of the graphs each alternative stands for, a `Forth`
/// node counted for each.
pub open spec fn alt_nodes<C>(lss: Seq<Seq<LazyGraphV<C>>>) -> Seq<nat>
    decreases lss, 1nat,
{
    Seq::new(
        lss.len(),
        |i: int|
            if 0 <= i < lss.len() {
                prod_nat(counts_of(lss[i])) + tuple_nodes(counts_of(lss[i]), nodes_of(lss[i]))
            } else {
                0
            },
    )
}

/// The total number of nodes of the graphs a lazy graph stands for.
pub open spec fn nodes_v<C>(l: LazyGraphV<C>) -> nat
    decreases l, 2nat,
{
    match l {
        LazyGraphV::Empty => 0,
        LazyGraphV::Stop(_) => 1,
        LazyGraphV::Build(_, lss) => sum_nat(alt_nodes(lss)),
    }
}

/// For each child of one alternative, whether its counts fit a `usize`.
pub open spec fn count_fit_flags<C>(ls: Seq<LazyGraphV<C>>) -> Seq<bool>
    decreases ls, 0nat,
{
    Seq::new(
        ls.len(),
        |j: int|
            if 0 <= j < ls.len() {
                counts_fit(ls[j])
            } else {
                true
            },
    )
}

/// For each alternative, whether the counts of all its children fit.
pub open spec fn alt_count_fit_flags<C>(lss: Seq<Seq<LazyGraphV<C>>>) -> Seq<bool>
    decreases lss, 1nat,
{
    Seq::new(
        lss.len(),
        |i: int|
            if 0 <= i < lss.len() {
                all_set(count_fit_flags(lss[i]))
            } else {
                true
            },
    )
}

/// The count of `l` and of every lazy graph inside it fits a `usize`.
pub open spec fn counts_fit<C>(l: LazyGraphV<C>) -> bool
    decreases l, 2nat,
{
    count_v(l) <= usize::MAX && match l {
        LazyGraphV::Build(_, lss) => all_set(alt_count_fit_flags(lss)),
        _ => true,
    }
}

/// For each child of one alternative, whether its statistics fit a `usize`.
pub open spec fn fit_flags<C>(ls: Seq<LazyGraphV<C>>) -> Seq<bool>
    decreases ls, 0nat,
{
    Seq::new(
        ls.len(),
        |j: int|
            if 0 <= j < ls.len() {
                stats_fit(ls[j])
            } else {
                true
            },
    )
}

/// For each alternative, whether the statistics of all its children fit.
pub open spec fn alt_fit_flags<C>(lss: Seq<Seq<LazyGraphV<C>>>) -> Seq<bool>
    decreases lss, 1nat,
{
    Seq::new(
        lss.len(),
        |i: int|
            if 0 <= i < lss.len() {
                all_set(fit_flags(lss[i]))
            } else {
                true
            },
    )
}

/// The count and node total of `l` and of every lazy graph inside it fit a
/// `usize`.
pub open spec fn stats_fit<C>(l: LazyGraphV<C>) -> bool
    decreases l, 2nat,
{
    count_v(l) <= usize::MAX && nodes_v(l) <= usize::MAX && match l {
        LazyGraphV::Build(_, lss) => all_set(alt_fit_flags(lss)),
        _ => true,
    }
}

} // verus!

verus! {

proof fn lemma_prod_skip(s: Seq<nat>, j: int)
    requires
        0 <= j < s.len(),
    ensures
        prod_nat(s.skip(j)) == s[j] * prod_nat(s.skip(j + 1)),
{
    assert(s.skip(j).drop_first() =~= s.skip(j + 1));
}

proof fn lemma_prod_zero(s: Seq<nat>, j: int)
    requires
        0 <= j < s.len(),
        s[j] == 0,
    ensures
        prod_nat(s) == 0,
    decreases j,
{
    let a = s[0];
    if j > 0 {
        assert(s.drop_first()[j - 1] == s[j]);
        lemma_prod_zero(s.drop_first(), j - 1);
        let p = prod_nat(s.drop_first());
        assert(a * p == 0) by (nonlinear_arith)
            requires
                p == 0,
        ;
    } else {
        let p = prod_nat(s.drop_first());
        assert(a * p == 0) by (nonlinear_arith)
            requires
                a == 0,
        ;
    }
}

proof fn lemma_prod_skip_le(s: Seq<nat>, j: int)
    requires
        0 <= j <= s.len(),
        forall|i: int| 0 <= i < s.len() ==> #[trigger] s[i] >= 1,
    ensures
        prod_nat(s.skip(j)) <= prod_nat(s),
    decreases j,
{
    if j > 0 {
        lemma_prod_skip(s, j - 1);
        lemma_prod_skip_le(s, j - 1);
        let a = s[j - 1];
        let b = prod_nat(s.skip(j));
        assert(b <= a * b) by (nonlinear_arith)
            requires
                a >= 1,
        ;
    } else {
        assert(s.skip(0) =~= s);
    }
}

proof fn lemma_tuple_nodes_skip(ks: Seq<nat>, ns: Seq<nat>, j: int)
    requires
        ks.len() == ns.len(),
        0 <= j < ks.len(),
    ensures
        tuple_nodes(ks.skip(j), ns.skip(j)) == prod_nat(ks.skip(j + 1)) * ns[j] + ks[j]
            * tuple_nodes(ks.skip(j + 1), ns.skip(j + 1)),
{
    assert(ks.skip(j).drop_first() =~= ks.skip(j + 1));
    assert(ns.skip(j).drop_first() =~= ns.skip(j + 1));
}

proof fn lemma_tuple_nodes_skip_le(ks: Seq<nat>, ns: Seq<nat>, j: int)
    requires
        ks.len() == ns.len(),
        0 <= j <= ks.len(),
        forall|i: int| 0 <= i < ks.len() ==> #[trigger] ks[i] >= 1,
    ensures
        tuple_nodes(ks.skip(j), ns.skip(j)) <= tuple_nodes(ks, ns),
    decreases j,
{
    if j > 0 {
        lemma_tuple_nodes_skip(ks, ns, j - 1);
        lemma_tuple_nodes_skip_le(ks, ns, j - 1);
        let a = ks[j - 1];
        let t = tuple_nodes(ks.skip(j), ns.skip(j));
        let p = prod_nat(ks.skip(j)) * ns[j - 1];
        assert(t <= p + a * t) by (nonlinear_arith)
            requires
                a >= 1,
                p >= 0,
        ;
    } else {
        assert(ks.skip(0) =~= ks);
        assert(ns.skip(0) =~= ns);
    }
}

proof fn lemma_tuple_nodes_zero(ks: Seq<nat>, ns: Seq<nat>, j: int)
    requires
        ks.len() == ns.len(),
        0 <= j < ks.len(),
        ks[j] == 0,
        ns[j] == 0,
    ensures
        tuple_nodes(ks, ns) == 0,
    decreases j,
{
    let p = prod_nat(ks.drop_first());
    let a = ks[0];
    let b = ns[0];
    let t = tuple_nodes(ks.drop_first(), ns.drop_first());
    if j > 0 {
        assert(ks.drop_first()[j - 1] == ks[j]);
        assert(ns.drop_first()[j - 1] == ns[j]);
        lemma_tuple_nodes_zero(ks.drop_first(), ns.drop_first(), j - 1);
        lemma_prod_zero(ks.drop_first(), j - 1);
        assert(p * b + a * t == 0) by (nonlinear_arith)
            requires
                p == 0,
                t == 0,
        ;
    } else {
        assert(p * b + a * t == 0) by (nonlinear_arith)
            requires
                a == 0,
                b == 0,
        ;
    }
}

/// A lazy graph that stands for no graph stands for no node.
pub proof fn lemma_count_zero_nodes<C>(l: LazyGraphV<C>)
    requires
        count_v(l) == 0,
    ensures
        nodes_v(l) == 0,
    decreases l,
{
    if let LazyGraphV::Build(_, lss) = l {
        let ac = alt_counts(lss);
        let an = alt_nodes(lss);
        assert forall|i: int| 0 <= i < lss.len() implies #[trigger] an[i] == 0 by {
            lemma_sum_nat_zero(ac, i);
            let ks = counts_of(lss[i]);
            let ns = nodes_of(lss[i]);
            assert(prod_nat(ks) == 0);
            let j = lemma_prod_zero_witness(ks);
            assert(count_v(lss[i][j]) == 0);
            lemma_count_zero_nodes(lss[i][j]);
            lemma_tuple_nodes_zero(ks, ns, j);
        }
        lemma_sum_nat_all_zero(an);
    }
}

proof fn lemma_sum_nat_zero(s: Seq<nat>, i: int)
    requires
        0 <= i < s.len(),
        sum_nat(s) == 0,
    ensures
        s[i] == 0,
    decreases s.len(),
{
    if i < s.len() - 1 {
        lemma_sum_nat_zero(s.drop_last(), i);
    }
}

proof fn lemma_sum_nat_all_zero(s: Seq<nat>)
    requires
        forall|i: int| 0 <= i < s.len() ==> #[trigger] s[i] == 0,
    ensures
        sum_nat(s) == 0,
    decreases s.len(),
{
    if s.len() > 0 {
        lemma_sum_nat_all_zero(s.drop_last());
    }
}

proof fn lemma_prod_zero_witness(s: Seq<nat>) -> (j: int)
    requires
        prod_nat(s) == 0,
    ensures
        0 <= j < s.len(),
        s[j] == 0,
    decreases s.len(),
{
    if s[0] == 0 {
        0
    } else {
        assert(prod_nat(s.drop_first()) == 0) by (nonlinear_arith)
            requires
                s[0] * prod_nat(s.drop_first()) == 0,
                s[0] != 0,
        ;
        let j = lemma_prod_zero_witness(s.drop_first());
        j + 1
    }
}

/// The product of the counts of the children of one alternative.
fn alt_count(ks: &Vec<usize>) -> (r: usize)
    requires
        prod_nat(ks@.map_values(|k: usize| k as nat)) <= usize::MAX,
    ensures
        r == prod_nat(ks@.map_values(|k: usize| k as nat)),
{
    let ghost s = ks@.map_values(|k: usize| k as nat);
    let mut z: usize = 0;
    while z < ks.len()
        invariant
            z <= ks.len(),
            s == ks@.map_values(|k: usize| k as nat),
            forall|i: int| 0 <= i < z ==> #[trigger] s[i] >= 1,
        decreases ks.len() - z,
    {
        if ks[z] == 0 {
            proof {
                lemma_prod_zero(s, z as int);
            }
            return 0;
        }
        z = z + 1;
    }
    let mut k: usize = 1;
    let mut j: usize = ks.len();
    assert(s.skip(j as int) =~= Seq::<nat>::empty());
    while j > 0
        invariant
            j <= ks.len(),
            s == ks@.map_values(|k: usize| k as nat),
            forall|i: int| 0 <= i < ks.len() ==> #[trigger] s[i] >= 1,
            prod_nat(s) <= usize::MAX,
            k == prod_nat(s.skip(j as int)),
        decreases j,
    {
        proof {
            lemma_prod_skip(s, j - 1);
            lemma_prod_skip_le(s, j - 1);
        }
        k = ks[j - 1] * k;
        j = j - 1;
    }
    assert(s.skip(0) =~= s);
    k
}

/// The number of graphs that `l` stands for, computed without unrolling it.
pub fn length_unroll<C>(l: &LazyGraph<C>) -> (r: usize)
    requires
        counts_fit(l@),
    ensures
        r == count_v(l@),
        r == unroll_v(l@).len(),
    decreases l,
{
    proof {
        lemma_count_unroll(l@);
    }
    match l {
        LazyGraph::Empty() => 0,
        LazyGraph::Stop(_) => 1,
        LazyGraph::Build(c, lss) => {
            proof {
                lemma_build_view(*c, *lss);
            }
            let ghost big = lssv(lss@);
            let ghost ac = alt_counts(big);
            let mut s: usize = 0;
            let mut i: usize = 0;
            while i < lss.len()
                invariant
                    i <= lss.len(),
                    *l == LazyGraph::Build(*c, *lss),
                    l@ == LazyGraphV::Build(*c, big),
                    big == lssv(lss@),
                    ac == alt_counts(big),
                    counts_fit(l@),
                    s == sum_nat(ac.take(i as int)),
                decreases lss.len() - i,
            {
                let ls = &lss[i];
                let ghost kids = big[i as int];
                assert(kids == lsv(ls@));
                assert(alt_count_fit_flags(big)[i as int]);
                let mut ks: Vec<usize> = Vec::new();
                let mut j: usize = 0;
                while j < ls.len()
                    invariant
                        j <= ls.len(),
                        i < lss.len(),
                        *l == LazyGraph::Build(*c, *lss),
                        ls == lss[i as int],
                        kids == lsv(ls@),
                        all_set(count_fit_flags(kids)),
                        ks@.map_values(|k: usize| k as nat) == counts_of(kids).take(j as int),
                    decreases ls.len() - j,
                {
                    let child: &LazyGraph<C> = &ls[j];
                    assert(decreases_to!(*l => *child)) by {
                        assert(decreases_to!(*l => l->Build_1));
                        assert(decreases_to!(*lss => lss[i as int]));
                        assert(decreases_to!(lss[i as int] => lss[i as int][j as int]));
                    }
                    assert(count_fit_flags(kids)[j as int]);
                    let k = length_unroll(child);
                    let ghost before = ks@;
                    ks.push(k);
                    assert(ks@.map_values(|k: usize| k as nat) =~= before.map_values(|k: usize| k as nat).push(k as nat));
                    assert(counts_of(kids)[j as int] == count_v(child@));
                    j = j + 1;
                    assert(ks@.map_values(|k: usize| k as nat) =~= counts_of(kids).take(j as int));
                }
                assert(counts_of(kids).take(j as int) =~= counts_of(kids));
                proof {
                    lemma_sum_nat_take(ac, i as int);
                    crate::misc::lemma_sum_nat_prefix(ac, i + 1);
                    assert(ac[i as int] == prod_nat(counts_of(kids)));
                }
                let m = alt_count(&ks);
                s = s + m;
                i = i + 1;
            }
            assert(ac.take(i as int) =~= ac);
            s
        },
    }
}

} // verus!

verus! {

/// The naturals that a vector of `usize` holds.
pub open spec fn nats(v: Seq<usize>) -> Seq<nat> {
    v.map_values(|k: usize| k as nat)
}

/// The count and node total of the tuples of one alternative, from the
/// counts and node totals of its children.
fn alt_stats(ks: &Vec<usize>, ns: &Vec<usize>) -> (r: (usize, usize))
    requires
        ks.len() == ns.len(),
        prod_nat(nats(ks@)) + tuple_nodes(nats(ks@), nats(ns@)) <= usize::MAX,
        forall|j: int| 0 <= j < ks.len() ==> ks@[j] == 0 ==> ns@[j] == 0,
    ensures
        r.0 == prod_nat(nats(ks@)),
        r.1 == tuple_nodes(nats(ks@), nats(ns@)),
{
    let ghost kk = nats(ks@);
    let ghost nn = nats(ns@);
    let mut z: usize = 0;
    while z < ks.len()
        invariant
            z <= ks.len(),
            ks.len() == ns.len(),
            kk == nats(ks@),
            nn == nats(ns@),
            forall|j: int| 0 <= j < ks.len() ==> ks@[j] == 0 ==> ns@[j] == 0,
            forall|i: int| 0 <= i < z ==> #[trigger] kk[i] >= 1,
        decreases ks.len() - z,
    {
        if ks[z] == 0 {
            proof {
                lemma_prod_zero(kk, z as int);
                lemma_tuple_nodes_zero(kk, nn, z as int);
            }
            return (0, 0);
        }
        z = z + 1;
    }
    let mut k: usize = 1;
    let mut n: usize = 0;
    let mut j: usize = ks.len();
    assert(kk.skip(j as int) =~= Seq::<nat>::empty());
    while j > 0
        invariant
            j <= ks.len(),
            ks.len() == ns.len(),
            kk == nats(ks@),
            nn == nats(ns@),
            forall|i: int| 0 <= i < ks.len() ==> #[trigger] kk[i] >= 1,
            prod_nat(kk) + tuple_nodes(kk, nn) <= usize::MAX,
            k == prod_nat(kk.skip(j as int)),
            n == tuple_nodes(kk.skip(j as int), nn.skip(j as int)),
        decreases j,
    {
        proof {
            lemma_prod_skip(kk, j - 1);
            lemma_prod_skip_le(kk, j - 1);
            lemma_tuple_nodes_skip(kk, nn, j - 1);
            lemma_tuple_nodes_skip_le(kk, nn, j - 1);
        }
        let k1 = ks[j - 1];
        let n1 = ns[j - 1];
        let a = k * n1;
        let b = k1 * n;
        n = a + b;
        k = k1 * k;
        j = j - 1;
    }
    assert(kk.skip(0) =~= kk);
    assert(nn.skip(0) =~= nn);
    (k, n)
}

/// The number of graphs that `l` stands for and their total number of nodes,
/// computed without unrolling it.
pub fn size_unroll<C>(l: &LazyGraph<C>) -> (r: (usize, usize))
    requires
        stats_fit(l@),
    ensures
        r.0 == count_v(l@),
        r.1 == nodes_v(l@),
        r.0 == unroll_v(l@).len(),
        r.1 == total_size(unroll_v(l@)),
    decreases l,
{
    proof {
        lemma_count_unroll(l@);
        lemma_nodes_unroll(l@);
    }
    match l {
        LazyGraph::Empty() => (0, 0),
        LazyGraph::Stop(_) => (1, 1),
        LazyGraph::Build(c, lss) => {
            proof {
                lemma_build_view(*c, *lss);
            }
            let ghost big = lssv(lss@);
            let ghost ac = alt_counts(big);
            let ghost an = alt_nodes(big);
            let mut k: usize = 0;
            let mut n: usize = 0;
            let mut i: usize = 0;
            while i < lss.len()
                invariant
                    i <= lss.len(),
                    *l == LazyGraph::Build(*c, *lss),
                    l@ == LazyGraphV::Build(*c, big),
                    big == lssv(lss@),
                    ac == alt_counts(big),
                    an == alt_nodes(big),
                    stats_fit(l@),
                    k == sum_nat(ac.take(i as int)),
                    n == sum_nat(an.take(i as int)),
                decreases lss.len() - i,
            {
                let ls = &lss[i];
                assert(big[i as int] == lsv(ls@));
                assert(alt_fit_flags(big)[i as int]);
                proof {
                    lemma_sum_nat_take(ac, i as int);
                    crate::misc::lemma_sum_nat_prefix(ac, i + 1);
                    lemma_sum_nat_take(an, i as int);
                    crate::misc::lemma_sum_nat_prefix(an, i + 1);
                }
                assert(decreases_to!(*l => lss[i as int])) by {
                    assert(decreases_to!(*l => l->Build_1));
                    assert(decreases_to!(*lss => lss[i as int]));
                }
                let (k1, n1) = size_unroll_ls(ls);
                k = k + k1;
                n = n + (k1 + n1);
                i = i + 1;
            }
            assert(ac.take(i as int) =~= ac);
            assert(an.take(i as int) =~= an);
            (k, n)
        },
    }
}

fn size_unroll_ls<C>(ls: &Ls<C>) -> (r: (usize, usize))
    requires
        all_set(fit_flags(lsv(ls@))),
        prod_nat(counts_of(lsv(ls@))) + tuple_nodes(counts_of(lsv(ls@)), nodes_of(lsv(ls@)))
            <= usize::MAX,
    ensures
        r.0 == prod_nat(counts_of(lsv(ls@))),
        r.1 == tuple_nodes(counts_of(lsv(ls@)), nodes_of(lsv(ls@))),
    decreases ls,
{
    let ghost kids = lsv(ls@);
    let mut ks: Vec<usize> = Vec::new();
    let mut ns: Vec<usize> = Vec::new();
    let mut j: usize = 0;
    while j < ls.len()
        invariant
            j <= ls.len(),
            kids == lsv(ls@),
            all_set(fit_flags(kids)),
            ks.len() == j,
            ns.len() == j,
            nats(ks@) == counts_of(kids).take(j as int),
            nats(ns@) == nodes_of(kids).take(j as int),
            forall|jj: int| 0 <= jj < j ==> ks@[jj] == 0 ==> ns@[jj] == 0,
        decreases ls.len() - j,
    {
        let child: &LazyGraph<C> = &ls[j];
        assert(decreases_to!(*ls => *child));
        assert(fit_flags(kids)[j as int]);
        let (k, n) = size_unroll(child);
        proof {
            if k == 0 {
                lemma_count_zero_nodes(child@);
            }
        }
        let ghost kb = ks@;
        let ghost nb = ns@;
        ks.push(k);
        ns.push(n);
        assert(nats(ks@) =~= nats(kb).push(k as nat));
        assert(nats(ns@) =~= nats(nb).push(n as nat));
        j = j + 1;
        assert(nats(ks@) =~= counts_of(kids).take(j as int));
        assert(nats(ns@) =~= nodes_of(kids).take(j as int));
    }
    assert(counts_of(kids).take(j as int) =~= counts_of(kids));
    assert(nodes_of(kids).take(j as int) =~= nodes_of(kids));
    alt_stats(&ks, &ns)
}

} // verus!

verus! {

/// `length_unroll` counts what `unroll` lists: the count of a lazy graph is
/// the length of the list of graphs it stands for.
pub proof fn lemma_count_unroll<C>(l: LazyGraphV<C>)
    ensures
        count_v(l) == unroll_v(l).len(),
    decreases l,
{
    if let LazyGraphV::Build(c, lss) = l {
        let parts = alts_unroll(lss);
        assert forall|i: int| 0 <= i < lss.len() implies #[trigger] lens(parts)[i] == alt_counts(
            lss,
        )[i] by {
            let ls = lss[i];
            assert forall|j: int| 0 <= j < ls.len() implies #[trigger] lens(kid_units(ls))[j]
                == counts_of(ls)[j] by {
                lemma_count_unroll(ls[j]);
            }
            assert(lens(kid_units(ls)) =~= counts_of(ls));
            lemma_cart_len(kid_units(ls));
            assert(parts[i] == alt_unroll(ls));
        }
        assert(lens(parts) =~= alt_counts(lss));
        lemma_concat_all_len(parts);
    }
}

} // verus!

verus! {

/// The total number of nodes of a list of graphs.
pub open spec fn total_size<C>(gs: Seq<GraphV<C>>) -> nat {
    sum_nat(sizes_v(gs))
}

/// The node totals of a list of lists of graphs.
pub open spec fn tots<C>(u: Seq<Seq<GraphV<C>>>) -> Seq<nat> {
    u.map_values(|gs: Seq<GraphV<C>>| total_size(gs))
}

/// The node total of the tuples of the Cartesian product of `u`.
pub open spec fn tuple_total<C>(u: Seq<Seq<GraphV<C>>>) -> nat {
    sum_nat(cart(u).map_values(|t: Seq<GraphV<C>>| total_size(t)))
}

proof fn lemma_total_size_as_sum<C>(gs: Seq<GraphV<C>>)
    ensures
        total_size(gs) == sum_nat(gs.map_values(|g: GraphV<C>| graph_size_v(g))),
{
    assert(sizes_v(gs) =~= gs.map_values(|g: GraphV<C>| graph_size_v(g)));
}

proof fn lemma_total_prepend<C>(x: GraphV<C>, ys: Seq<GraphV<C>>)
    ensures
        total_size(seq![x] + ys) == graph_size_v(x) + total_size(ys),
{
    assert(sizes_v(seq![x] + ys) =~= seq![graph_size_v(x)] + sizes_v(ys));
    lemma_sum_nat_add(seq![graph_size_v(x)], sizes_v(ys));
    assert(seq![graph_size_v(x)].drop_last() =~= Seq::<nat>::empty());
    assert(sum_nat(Seq::<nat>::empty()) == 0);
    assert(sum_nat(seq![graph_size_v(x)]) == graph_size_v(x));
}

/// The node total of the tuples of a product, computed from the lengths and
/// node totals of its lists.
proof fn lemma_tuple_total<C>(u: Seq<Seq<GraphV<C>>>)
    ensures
        tuple_total(u) == tuple_nodes(lens(u), tots(u)),
    decreases u.len(),
{
    let tot = |t: Seq<GraphV<C>>| total_size(t);
    if u.len() == 0 {
        assert(cart(u).map_values(tot) =~= seq![0nat]);
        assert(seq![0nat].drop_last() =~= Seq::<nat>::empty());
    } else {
        let u1 = u.drop_first();
        lemma_tuple_total(u1);
        lemma_cart_len(u1);
        let r = cart(u1);
        let q = Seq::new(
            u[0].len(),
            |i: int| r.map_values(|ys: Seq<GraphV<C>>| seq![u[0][i]] + ys),
        );
        assert(cart(u) == concat_all(q));
        lemma_sum_concat_all(q, tot);
        let w = q.map_values(|t: Seq<Seq<GraphV<C>>>| sum_nat(t.map_values(tot)));
        let v = sizes_v(u[0]);
        assert forall|i: int| 0 <= i < v.len() implies #[trigger] w[i] == r.len() * v[i]
            + tuple_total(u1) by {
            let x = u[0][i];
            let h = |ys: Seq<GraphV<C>>| total_size(seq![x] + ys);
            assert forall|k: int| 0 <= k < r.len() implies #[trigger] h(r[k]) == graph_size_v(x)
                + tot(r[k]) by {
                lemma_total_prepend(x, r[k]);
            }
            lemma_sum_shift(r, graph_size_v(x), tot, h);
            assert(q[i].map_values(tot) =~= r.map_values(h));
        }
        lemma_sum_affine(v, w, r.len(), tuple_total(u1));
        assert(lens(u).drop_first() =~= lens(u1));
        assert(tots(u).drop_first() =~= tots(u1));
    }
}

/// `size_unroll` counts the nodes that `unroll` lists: the node total of a
/// lazy graph is the sum of the sizes of the graphs it stands for.
pub proof fn lemma_nodes_unroll<C>(l: LazyGraphV<C>)
    ensures
        nodes_v(l) == total_size(unroll_v(l)),
    decreases l,
{
    let gsz = |g: GraphV<C>| graph_size_v(g);
    lemma_total_size_as_sum(unroll_v(l));
    match l {
        LazyGraphV::Empty => {
            assert(unroll_v(l) == Seq::<GraphV<C>>::empty());
            assert(sizes_v(unroll_v(l)) =~= Seq::<nat>::empty());
            assert(sum_nat(Seq::<nat>::empty()) == 0);
        },
        LazyGraphV::Stop(c) => {
            assert(unroll_v(l).map_values(gsz) =~= seq![1nat]);
            assert(seq![1nat].drop_last() =~= Seq::<nat>::empty());
            assert(sum_nat(Seq::<nat>::empty()) == 0);
            assert(sum_nat(seq![1nat]) == 1);
        },
        LazyGraphV::Build(c, lss) => {
            let fc = forth_of(c);
            let parts = alts_unroll(lss);
            let forths = parts.map_values(|t: Seq<Seq<GraphV<C>>>| t.map_values(fc));
            lemma_concat_all_map(parts, fc);
            lemma_sum_concat_all(forths, gsz);
            let w = forths.map_values(|t: Seq<GraphV<C>>| sum_nat(t.map_values(gsz)));
            assert forall|i: int| 0 <= i < lss.len() implies #[trigger] w[i] == alt_nodes(lss)[i] by {
                let ls = lss[i];
                let u = kid_units(ls);
                let tot = |t: Seq<GraphV<C>>| total_size(t);
                let h = |t: Seq<GraphV<C>>| gsz(fc(t));
                assert forall|k: int| 0 <= k < cart(u).len() implies #[trigger] h(cart(u)[k]) == 1
                    + tot(cart(u)[k]) by {
                    lemma_total_size_as_sum(cart(u)[k]);
                    assert(sizes_v(cart(u)[k]) =~= cart(u)[k].map_values(gsz));
                }
                lemma_sum_shift(cart(u), 1, tot, h);
                assert(parts[i] == cart(u));
                assert(forths[i].map_values(gsz) =~= cart(u).map_values(h));
                lemma_cart_len(u);
                lemma_tuple_total(u);
                assert forall|j: int| 0 <= j < ls.len() implies #[trigger] lens(u)[j] == counts_of(
                    ls,
                )[j] by {
                    lemma_count_unroll(ls[j]);
                }
                assert forall|j: int| 0 <= j < ls.len() implies #[trigger] tots(u)[j] == nodes_of(
                    ls,
                )[j] by {
                    lemma_nodes_unroll(ls[j]);
                    assert(u[j] == unroll_v(ls[j]));
                }
                assert(lens(u) =~= counts_of(ls));
                assert(tots(u) =~= nodes_of(ls));
            }
            assert(w =~= alt_nodes(lss));
        },
    }
}

} // verus!
