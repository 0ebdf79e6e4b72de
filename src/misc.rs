//! Persistent histories, the Cartesian product of lists, and the facts about
//! cloning and sequences that the rest of the library builds on.
use std::rc::Rc;
use vstd::prelude::*;

use itertools::Itertools;

verus! {

/// Cloning a value of `T` gives back the same value.
pub open spec fn clone_exact<T: Clone>() -> bool {
    forall|a: T, b: T| #[trigger] call_ensures(T::clone, (&a,), b) ==> a == b
}

/// The concatenation of a sequence of sequences, built from the right.
pub open spec fn concat_all<A>(s: Seq<Seq<A>>) -> Seq<A>
    decreases s.len(),
{
    if s.len() == 0 {
        Seq::empty()
    } else {
        concat_all(s.drop_last()) + s.last()
    }
}

/// The Cartesian product of `xss`: every way of picking one item from each
/// list, in lexicographic order (the last position varies fastest).
pub open spec fn cart<A>(xss: Seq<Seq<A>>) -> Seq<Seq<A>>
    decreases xss.len(),
{
    if xss.len() == 0 {
        seq![Seq::empty()]
    } else {
        let rest = cart(xss.drop_first());
        concat_all(Seq::new(xss[0].len(), |i: int| rest.map_values(|ys: Seq<A>| seq![xss[0][i]] + ys)))
    }
}

/// The views of the inner vectors of `v`.
pub open spec fn vv<A>(v: Vec<Vec<A>>) -> Seq<Seq<A>> {
    v@.map_values(|xs: Vec<A>| xs@)
}

pub proof fn lemma_concat_all_push<A>(s: Seq<Seq<A>>, x: Seq<A>)
    ensures
        concat_all(s.push(x)) == concat_all(s) + x,
{
    assert(s.push(x).drop_last() =~= s);
}

pub proof fn lemma_concat_all_take<A>(s: Seq<Seq<A>>, i: int)
    requires
        0 <= i < s.len(),
    ensures
        concat_all(s.take(i + 1)) == concat_all(s.take(i)) + s[i],
{
    assert(s.take(i + 1).drop_last() =~= s.take(i));
}

/// The items behind the references.
pub open spec fn derefs<A>(s: Seq<Seq<&A>>) -> Seq<Seq<A>> {
    s.map_values(|t: Seq<&A>| t.map_values(|r: &A| *r))
}

/// Relies on itertools' `Itertools::multi_cartesian_product`: on a non-empty
/// list of lists it yields every choice of one item from each, the last
/// position varying fastest.
#[verifier::external_body]
fn multi_product<'a, X>(xss: &'a Vec<Vec<X>>) -> (r: Vec<Vec<&'a X>>)
    requires
        xss.len() > 0,
    ensures
        derefs(vv(r)) == cart(vv(*xss)),
{
    xss.iter().multi_cartesian_product().collect()
}

/// Copies of the items that the tuples refer to.
fn owned_tuples<X: Clone>(tss: Vec<Vec<&X>>) -> (r: Vec<Vec<X>>)
    requires
        clone_exact::<X>(),
    ensures
        vv(r) == derefs(vv(tss)),
{
    let mut r: Vec<Vec<X>> = Vec::new();
    let mut k: usize = 0;
    while k < tss.len()
        invariant
            clone_exact::<X>(),
            k <= tss.len(),
            vv(r) == derefs(vv(tss)).take(k as int),
        decreases tss.len() - k,
    {
        let ts = &tss[k];
        let mut t: Vec<X> = Vec::new();
        let mut j: usize = 0;
        while j < ts.len()
            invariant
                clone_exact::<X>(),
                j <= ts.len(),
                t@ == ts@.map_values(|r: &X| *r).take(j as int),
            decreases ts.len() - j,
        {
            let x = ts[j].clone();
            t.push(x);
            j = j + 1;
            assert(t@ =~= ts@.map_values(|r: &X| *r).take(j as int));
        }
        assert(t@ =~= ts@.map_values(|r: &X| *r));
        assert(derefs(vv(tss))[k as int] == t@);
        let ghost before = vv(r);
        r.push(t);
        assert(vv(r) =~= before.push(t@));
        k = k + 1;
        assert(vv(r) =~= derefs(vv(tss)).take(k as int));
    }
    assert(vv(r) =~= derefs(vv(tss)));
    r
}

/// Shared copies of the pointers that the tuples refer to.
fn owned_rc_tuples<X>(tss: Vec<Vec<&Rc<X>>>) -> (r: Vec<Vec<Rc<X>>>)
    ensures
        vv(r) == derefs(vv(tss)),
{
    let mut r: Vec<Vec<Rc<X>>> = Vec::new();
    let mut k: usize = 0;
    while k < tss.len()
        invariant
            k <= tss.len(),
            vv(r) == derefs(vv(tss)).take(k as int),
        decreases tss.len() - k,
    {
        let ts = &tss[k];
        let mut t: Vec<Rc<X>> = Vec::new();
        let mut j: usize = 0;
        while j < ts.len()
            invariant
                j <= ts.len(),
                t@ == ts@.map_values(|r: &Rc<X>| *r).take(j as int),
            decreases ts.len() - j,
        {
            let x = Rc::clone(ts[j]);
            t.push(x);
            j = j + 1;
            assert(t@ =~= ts@.map_values(|r: &Rc<X>| *r).take(j as int));
        }
        assert(t@ =~= ts@.map_values(|r: &Rc<X>| *r));
        assert(derefs(vv(tss))[k as int] == t@);
        let ghost before = vv(r);
        r.push(t);
        assert(vv(r) =~= before.push(t@));
        k = k + 1;
        assert(vv(r) =~= derefs(vv(tss)).take(k as int));
    }
    assert(vv(r) =~= derefs(vv(tss)));
    r
}

/// The Cartesian product of a list of lists: `[[]]` for no lists, `[]` when
/// any list is empty.
pub fn cartesian<X: Clone>(xss: &Vec<Vec<X>>) -> (r: Vec<Vec<X>>)
    requires
        clone_exact::<X>(),
    ensures
        vv(r) == cart(vv(*xss)),
{
    if xss.len() == 0 {
        let r: Vec<Vec<X>> = vec![Vec::new()];
        assert(vv(r) =~= cart(vv(*xss)));
        r
    } else {
        owned_tuples(multi_product(xss))
    }
}

/// The Cartesian product of lists of shared pointers; the pointers are
/// shared, not their targets copied.
pub fn cartesian_rc<X>(xss: &Vec<Vec<Rc<X>>>) -> (r: Vec<Vec<Rc<X>>>)
    ensures
        vv(r) == cart(vv(*xss)),
{
    if xss.len() == 0 {
        let r: Vec<Vec<Rc<X>>> = vec![Vec::new()];
        assert(vv(r) =~= cart(vv(*xss)));
        r
    } else {
        owned_rc_tuples(multi_product(xss))
    }
}

/// A persistent stack of configurations: the newest at the head.
#[derive(Clone, Debug, PartialEq, Eq)]
pub enum History<T> {
    Nil,
    Cons(T, Rc<History<T>>),
}

/// The items of a history, newest first.
pub open spec fn history_seq<T>(h: History<T>) -> Seq<T>
    decreases h,
{
    match h {
        History::Nil => Seq::empty(),
        History::Cons(x, t) => seq![x] + history_seq(*t),
    }
}

impl<T> View for History<T> {
    type V = Seq<T>;

    open spec fn view(&self) -> Seq<T> {
        history_seq(*self)
    }
}

impl<T: Clone> History<T> {
    /// The empty history.
    pub fn new() -> (r: History<T>)
        ensures
            r@ == Seq::<T>::empty(),
    {
        History::Nil
    }

    /// A new history with `x` on top of this one, which stays as it was.
    pub fn cons(&self, x: T) -> (r: History<T>)
        ensures
            r@.len() == self@.len() + 1,
            r@[0] == x,
            clone_exact::<T>() ==> r@ == seq![x] + self@,
    {
        match self {
            History::Cons(h, t) => {
                let inner = History::Cons(h.clone(), Rc::clone(t));
                assert(inner@ == seq![inner->Cons_0] + (**t)@);
                assert(self@ == seq![*h] + (**t)@);
                History::Cons(x, Rc::new(inner))
            },
            History::Nil => History::Cons(x, Rc::new(History::Nil)),
        }
    }

    /// The number of items.
    pub fn length(&self) -> (r: usize)
        requires
            self@.len() <= usize::MAX,
        ensures
            r == self@.len(),
    {
        let mut n: usize = 0;
        let mut cur: &History<T> = self;
        loop
            invariant
                n + cur@.len() == self@.len(),
                self@.len() <= usize::MAX,
            decreases cur@.len(),
        {
            match cur {
                History::Nil => {
                    return n;
                },
                History::Cons(_, t) => {
                    n = n + 1;
                    cur = &**t;
                },
            }
        }
    }

    /// Whether `p` holds of some item, looking from the newest.
    pub fn any<F: Fn(&T) -> bool>(&self, p: F) -> (r: bool)
        requires
            forall|i: int| 0 <= i < self@.len() ==> p.requires((&self@[i],)),
        ensures
            r ==> exists|i: int| 0 <= i < self@.len() && p.ensures((&self@[i],), true),
            !r ==> forall|i: int| 0 <= i < self@.len() ==> p.ensures((&self@[i],), false),
    {
        let mut cur: &History<T> = self;
        let ghost mut k: int = 0;
        loop
            invariant
                0 <= k <= self@.len(),
                cur@ == self@.subrange(k, self@.len() as int),
                forall|i: int| 0 <= i < self@.len() ==> p.requires((&self@[i],)),
                forall|i: int| 0 <= i < k ==> p.ensures((&self@[i],), false),
            decreases cur@.len(),
        {
            match cur {
                History::Nil => {
                    return false;
                },
                History::Cons(h, t) => {
                    assert(cur@ == seq![*h] + (**t)@);
                    assert(self@[k] == cur@[0]);
                    let ghost rest = (**t)@;
                    assert(rest.len() == self@.len() - k - 1);
                    assert forall|i: int| 0 <= i < rest.len() implies rest[i] == self@[k + 1 + i] by {
                        assert(rest[i] == cur@[i + 1]);
                    }
                    assert(rest =~= self@.subrange(k + 1, self@.len() as int));
                    if p(h) {
                        return true;
                    }
                    cur = &**t;
                    proof {
                        k = k + 1;
                    }
                },
            }
        }
    }
}

} // verus!

verus! {

pub proof fn lemma_concat_all_map<A, B>(s: Seq<Seq<A>>, g: spec_fn(A) -> B)
    ensures
        concat_all(s).map_values(g) == concat_all(s.map_values(|t: Seq<A>| t.map_values(g))),
    decreases s.len(),
{
    if s.len() > 0 {
        lemma_concat_all_map(s.drop_last(), g);
        assert(s.drop_last().map_values(|t: Seq<A>| t.map_values(g)) =~= s.map_values(
            |t: Seq<A>| t.map_values(g),
        ).drop_last());
        assert(concat_all(s).map_values(g) =~= concat_all(s.drop_last()).map_values(g)
            + s.last().map_values(g));
    } else {
        assert(concat_all(s).map_values(g) =~= concat_all(
            s.map_values(|t: Seq<A>| t.map_values(g)),
        ));
    }
}

/// Mapping every item commutes with the Cartesian product.
pub proof fn lemma_cart_map<A, B>(xss: Seq<Seq<A>>, f: spec_fn(A) -> B)
    ensures
        cart(xss.map_values(|xs: Seq<A>| xs.map_values(f))) == cart(xss).map_values(
            |t: Seq<A>| t.map_values(f),
        ),
    decreases xss.len(),
{
    let tm = |t: Seq<A>| t.map_values(f);
    let ys = xss.map_values(|xs: Seq<A>| xs.map_values(f));
    if xss.len() == 0 {
        assert(cart(ys) == seq![Seq::<B>::empty()]);
        assert(cart(xss) == seq![Seq::<A>::empty()]);
        assert(cart(xss).map_values(tm)[0] =~= Seq::<B>::empty());
        assert(cart(ys) =~= cart(xss).map_values(tm));
    } else {
        lemma_cart_map(xss.drop_first(), f);
        assert(ys.drop_first() =~= xss.drop_first().map_values(|xs: Seq<A>| xs.map_values(f)));
        let rest = cart(xss.drop_first());
        let n = xss[0].len();
        let lhs_parts = Seq::new(
            ys[0].len(),
            |i: int| cart(ys.drop_first()).map_values(|zs: Seq<B>| seq![ys[0][i]] + zs),
        );
        let rhs_parts = Seq::new(n, |i: int| rest.map_values(|zs: Seq<A>| seq![xss[0][i]] + zs));
        assert(lhs_parts =~= rhs_parts.map_values(|t: Seq<Seq<A>>| t.map_values(tm))) by {
            assert forall|i: int| 0 <= i < n implies lhs_parts[i] =~= rhs_parts.map_values(
                |t: Seq<Seq<A>>| t.map_values(tm),
            )[i] by {
                assert forall|k: int| 0 <= k < rest.len() implies lhs_parts[i][k]
                    =~= rhs_parts[i].map_values(tm)[k] by {
                    assert(rhs_parts[i][k] == seq![xss[0][i]] + rest[k]);
                }
            }
        }
        lemma_concat_all_map(rhs_parts, tm);
    }
}

} // verus!

verus! {

/// The sum of a sequence of naturals.
pub open spec fn sum_nat(s: Seq<nat>) -> nat
    decreases s.len(),
{
    if s.len() == 0 {
        0
    } else {
        sum_nat(s.drop_last()) + s.last()
    }
}

pub proof fn lemma_sum_nat_take(s: Seq<nat>, i: int)
    requires
        0 <= i < s.len(),
    ensures
        sum_nat(s.take(i + 1)) == sum_nat(s.take(i)) + s[i],
{
    assert(s.take(i + 1).drop_last() =~= s.take(i));
}

/// A prefix sums to no more than the whole.
pub proof fn lemma_sum_nat_prefix(s: Seq<nat>, i: int)
    requires
        0 <= i <= s.len(),
    ensures
        sum_nat(s.take(i)) <= sum_nat(s),
    decreases s.len() - i,
{
    if i < s.len() {
        lemma_sum_nat_take(s, i);
        lemma_sum_nat_prefix(s, i + 1);
    } else {
        assert(s.take(i) =~= s);
    }
}

/// `f` is a total function without side effects: it may be called on every
/// value, and its result depends on the value alone.
pub open spec fn pure_pred<C, F: Fn(&C) -> bool>(f: F) -> bool {
    &&& forall|c: C| #[trigger] f.requires((&c,))
    &&& forall|c: C, b: bool| #[trigger] f.ensures((&c,), b) ==> (b == f.ensures((&c,), true))
}

/// The predicate that `f` computes.
pub open spec fn pred_of<C, F: Fn(&C) -> bool>(f: F) -> spec_fn(C) -> bool {
    |c: C| f.ensures((&c,), true)
}

} // verus!

verus! {

/// The product of a sequence of naturals.
pub open spec fn prod_nat(s: Seq<nat>) -> nat
    decreases s.len(),
{
    if s.len() == 0 {
        1
    } else {
        s[0] * prod_nat(s.drop_first())
    }
}

/// Whether every flag is set.
pub open spec fn all_set(s: Seq<bool>) -> bool {
    forall|i: int| 0 <= i < s.len() ==> #[trigger] s[i]
}

} // verus!

verus! {

/// The lengths of a list of lists.
pub open spec fn lens<A>(s: Seq<Seq<A>>) -> Seq<nat> {
    s.map_values(|t: Seq<A>| t.len())
}

/// The product of no lists holds one tuple, the empty one.
pub proof fn lemma_cart_nil<A>()
    ensures
        cart(Seq::<Seq<A>>::empty()) == seq![Seq::<A>::empty()],
{
}

pub proof fn lemma_concat_all_of_empties<A>(s: Seq<Seq<A>>)
    requires
        forall|i: int| 0 <= i < s.len() ==> (#[trigger] s[i]).len() == 0,
    ensures
        concat_all(s).len() == 0,
    decreases s.len(),
{
    if s.len() > 0 {
        lemma_concat_all_of_empties(s.drop_last());
    }
}

/// A product in which one of the lists is empty holds no tuple.
pub proof fn lemma_cart_with_empty<A>(xss: Seq<Seq<A>>, k: int)
    requires
        0 <= k < xss.len(),
        xss[k].len() == 0,
    ensures
        cart(xss) == Seq::<Seq<A>>::empty(),
    decreases k,
{
    let rest = cart(xss.drop_first());
    let parts = Seq::new(xss[0].len(), |i: int| rest.map_values(|ys: Seq<A>| seq![xss[0][i]] + ys));
    if k > 0 {
        lemma_cart_with_empty(xss.drop_first(), k - 1);
    }
    lemma_concat_all_of_empties(parts);
    assert(cart(xss) =~= Seq::<Seq<A>>::empty());
}

pub proof fn lemma_concat_all_len<A>(s: Seq<Seq<A>>)
    ensures
        concat_all(s).len() == sum_nat(lens(s)),
    decreases s.len(),
{
    if s.len() > 0 {
        lemma_concat_all_len(s.drop_last());
        assert(lens(s).drop_last() =~= lens(s.drop_last()));
    }
}

proof fn lemma_sum_nat_const(s: Seq<nat>, c: nat)
    requires
        forall|i: int| 0 <= i < s.len() ==> #[trigger] s[i] == c,
    ensures
        sum_nat(s) == s.len() * c,
    decreases s.len(),
{
    if s.len() > 0 {
        lemma_sum_nat_const(s.drop_last(), c);
        let n = s.len() as int;
        assert((n - 1) * c + c == n * c) by (nonlinear_arith);
    }
}

/// The product has as many tuples as the product of the lengths.
pub proof fn lemma_cart_len<A>(xss: Seq<Seq<A>>)
    ensures
        cart(xss).len() == prod_nat(lens(xss)),
    decreases xss.len(),
{
    if xss.len() > 0 {
        lemma_cart_len(xss.drop_first());
        let rest = cart(xss.drop_first());
        let parts = Seq::new(
            xss[0].len(),
            |i: int| rest.map_values(|ys: Seq<A>| seq![xss[0][i]] + ys),
        );
        lemma_concat_all_len(parts);
        lemma_sum_nat_const(lens(parts), rest.len());
        assert(lens(xss).drop_first() =~= lens(xss.drop_first()));
    }
}

} // verus!

verus! {

/// What holds of every item holds of every item kept by a filter.
pub proof fn lemma_filter_all<A>(s: Seq<A>, p: spec_fn(A) -> bool, q: spec_fn(A) -> bool)
    requires
        forall|i: int| 0 <= i < s.len() ==> q(#[trigger] s[i]),
    ensures
        forall|i: int| 0 <= i < s.filter(p).len() ==> q(#[trigger] s.filter(p)[i]),
    decreases s.len(),
{
    if s.len() > 0 {
        lemma_filter_all(s.drop_last(), p, q);
        assert(s.drop_last().push(s.last()) =~= s);
        s.drop_last().lemma_filter_push(s.last(), p);
    }
}

/// A filter that every item passes keeps the sequence.
pub proof fn lemma_filter_keeps_all<A>(s: Seq<A>, p: spec_fn(A) -> bool)
    requires
        forall|i: int| 0 <= i < s.len() ==> p(#[trigger] s[i]),
    ensures
        s.filter(p) == s,
    decreases s.len(),
{
    if s.len() > 0 {
        lemma_filter_keeps_all(s.drop_last(), p);
        assert(s.drop_last().push(s.last()) =~= s);
        s.drop_last().lemma_filter_push(s.last(), p);
    }
}

/// Dropping items whose image is empty does not change the concatenation of
/// the images.
pub proof fn lemma_concat_filter<A, B>(s: Seq<A>, p: spec_fn(A) -> bool, f: spec_fn(A) -> Seq<B>)
    requires
        forall|i: int| 0 <= i < s.len() ==> !p(#[trigger] s[i]) ==> f(s[i]).len() == 0,
    ensures
        concat_all(s.filter(p).map_values(f)) == concat_all(s.map_values(f)),
    decreases s.len(),
{
    if s.len() > 0 {
        let init = s.drop_last();
        let x = s.last();
        lemma_concat_filter(init, p, f);
        assert(init.push(x) =~= s);
        init.lemma_filter_push(x, p);
        assert(s.map_values(f) =~= init.map_values(f).push(f(x)));
        lemma_concat_all_push(init.map_values(f), f(x));
        if p(x) {
            assert(s.filter(p).map_values(f) =~= init.filter(p).map_values(f).push(f(x)));
            lemma_concat_all_push(init.filter(p).map_values(f), f(x));
        } else {
            assert(concat_all(init.map_values(f)) + f(x) =~= concat_all(init.map_values(f)));
        }
    } else {
        assert(s.filter(p).map_values(f) =~= s.map_values(f));
    }
}

} // verus!

verus! {

pub proof fn lemma_sum_nat_add(a: Seq<nat>, b: Seq<nat>)
    ensures
        sum_nat(a + b) == sum_nat(a) + sum_nat(b),
    decreases b.len(),
{
    if b.len() == 0 {
        assert(a + b =~= a);
    } else {
        lemma_sum_nat_add(a, b.drop_last());
        assert((a + b).drop_last() =~= a + b.drop_last());
    }
}

/// Summing `g` over a concatenation sums it over each part.
pub proof fn lemma_sum_concat_all<A>(s: Seq<Seq<A>>, g: spec_fn(A) -> nat)
    ensures
        sum_nat(concat_all(s).map_values(g)) == sum_nat(
            s.map_values(|t: Seq<A>| sum_nat(t.map_values(g))),
        ),
    decreases s.len(),
{
    if s.len() > 0 {
        lemma_sum_concat_all(s.drop_last(), g);
        assert(concat_all(s).map_values(g) =~= concat_all(s.drop_last()).map_values(g)
            + s.last().map_values(g));
        lemma_sum_nat_add(concat_all(s.drop_last()).map_values(g), s.last().map_values(g));
        assert(s.drop_last().map_values(|t: Seq<A>| sum_nat(t.map_values(g))) =~= s.map_values(
            |t: Seq<A>| sum_nat(t.map_values(g)),
        ).drop_last());
    } else {
        assert(concat_all(s).map_values(g) =~= Seq::<nat>::empty());
    }
}

/// Summing `a + g(x)` over `s` gives `a` times the length plus the sum of `g`.
pub proof fn lemma_sum_shift<A>(s: Seq<A>, a: nat, g: spec_fn(A) -> nat, h: spec_fn(A) -> nat)
    requires
        forall|i: int| 0 <= i < s.len() ==> #[trigger] h(s[i]) == a + g(s[i]),
    ensures
        sum_nat(s.map_values(h)) == s.len() * a + sum_nat(s.map_values(g)),
    decreases s.len(),
{
    if s.len() > 0 {
        lemma_sum_shift(s.drop_last(), a, g, h);
        assert(s.map_values(h).drop_last() =~= s.drop_last().map_values(h));
        assert(s.map_values(g).drop_last() =~= s.drop_last().map_values(g));
        let n = s.len() as int;
        assert((n - 1) * a + a == n * a) by (nonlinear_arith);
    } else {
        assert(s.map_values(h) =~= Seq::<nat>::empty());
        assert(s.map_values(g) =~= Seq::<nat>::empty());
    }
}

/// Summing `c * v[i] + d` gives `c` times the sum of `v` plus `d` times the
/// length.
pub proof fn lemma_sum_affine(v: Seq<nat>, w: Seq<nat>, c: nat, d: nat)
    requires
        v.len() == w.len(),
        forall|i: int| 0 <= i < v.len() ==> #[trigger] w[i] == c * v[i] + d,
    ensures
        sum_nat(w) == c * sum_nat(v) + v.len() * d,
    decreases v.len(),
{
    if v.len() > 0 {
        lemma_sum_affine(v.drop_last(), w.drop_last(), c, d);
        let n = v.len() as int;
        let sv = sum_nat(v.drop_last());
        let x = v.last();
        assert(w[v.len() - 1] == c * v[v.len() - 1] + d);
        assert(sum_nat(w) == sum_nat(w.drop_last()) + w.last());
        assert(sum_nat(v) == sv + x);
        let sw = sum_nat(w.drop_last());
        assert(sw == c * sv + (n - 1) * d);
        assert(sum_nat(w) == c * sum_nat(v) + v.len() * d) by (nonlinear_arith)
            requires
                sum_nat(w) == sw + (c * x + d),
                sw == c * sv + (n - 1) * d,
                sum_nat(v) == sv + x,
                n == v.len(),
        ;
    } else {
        assert(sum_nat(w) == c * sum_nat(v) + v.len() * d) by (nonlinear_arith)
            requires
                sum_nat(w) == 0,
                sum_nat(v) == 0,
                v.len() == 0,
        ;
    }
}

} // verus!

verus! {

/// Filtering a concatenation filters each part.
pub proof fn lemma_filter_concat_all<A>(s: Seq<Seq<A>>, q: spec_fn(A) -> bool)
    ensures
        concat_all(s).filter(q) == concat_all(s.map_values(|t: Seq<A>| t.filter(q))),
    decreases s.len(),
{
    if s.len() > 0 {
        lemma_filter_concat_all(s.drop_last(), q);
        assert(s.map_values(|t: Seq<A>| t.filter(q)).drop_last() =~= s.drop_last().map_values(
            |t: Seq<A>| t.filter(q),
        ));
        Seq::filter_distributes_over_add(concat_all(s.drop_last()), s.last(), q);
    } else {
        assert(concat_all(s).filter(q) =~= Seq::<A>::empty()) by {
            reveal(Seq::filter);
        }
    }
}

/// Filtering images is filtering by the predicate of the image.
pub proof fn lemma_filter_map<A, B>(s: Seq<A>, f: spec_fn(A) -> B, q: spec_fn(B) -> bool, qf: spec_fn(A) -> bool)
    requires
        forall|x: A| #[trigger] qf(x) == q(f(x)),
    ensures
        s.map_values(f).filter(q) == s.filter(qf).map_values(f),
    decreases s.len(),
{
    if s.len() > 0 {
        let init = s.drop_last();
        let x = s.last();
        lemma_filter_map(init, f, q, qf);
        assert(init.push(x) =~= s);
        assert(s.map_values(f) =~= init.map_values(f).push(f(x)));
        init.map_values(f).lemma_filter_push(f(x), q);
        init.lemma_filter_push(x, qf);
        if qf(x) {
            assert(init.filter(qf).push(x).map_values(f) =~= init.filter(qf).map_values(f).push(f(x)));
        }
    } else {
        reveal(Seq::filter);
        assert(s.map_values(f).filter(q) =~= s.filter(qf).map_values(f));
    }
}

/// Filters by predicates that agree everywhere agree.
pub proof fn lemma_filter_ext<A>(s: Seq<A>, p: spec_fn(A) -> bool, q: spec_fn(A) -> bool)
    requires
        forall|x: A| #[trigger] p(x) == q(x),
    ensures
        s.filter(p) == s.filter(q),
{
    assert(p =~= q);
}

/// Whether `q` holds of every item.
pub open spec fn all_of<A>(q: spec_fn(A) -> bool) -> spec_fn(Seq<A>) -> bool {
    |t: Seq<A>| forall|i: int| 0 <= i < t.len() ==> q(#[trigger] t[i])
}

/// Filtering the lists of a product filters the tuples of the product.
pub proof fn lemma_cart_filter<A>(u: Seq<Seq<A>>, q: spec_fn(A) -> bool)
    ensures
        cart(u.map_values(|xs: Seq<A>| xs.filter(q))) == cart(u).filter(all_of(q)),
    decreases u.len(),
{
    let uf = u.map_values(|xs: Seq<A>| xs.filter(q));
    let aq = all_of(q);
    if u.len() == 0 {
        reveal(Seq::filter);
        assert(cart(u).filter(aq) =~= seq![Seq::<A>::empty()]);
        assert(cart(uf) =~= cart(u).filter(aq));
    } else {
        let u1 = u.drop_first();
        lemma_cart_filter(u1, q);
        assert(uf.drop_first() =~= u1.map_values(|xs: Seq<A>| xs.filter(q)));
        let r = cart(u1);
        let rf = cart(uf.drop_first());
        assert(rf == r.filter(aq));
        let x0 = u[0];
        let f = |x: A| rf.map_values(|ys: Seq<A>| seq![x] + ys);
        let g = |x: A| if q(x) { f(x) } else { Seq::empty() };
        // The product of the filtered lists.
        let lparts = Seq::new(uf[0].len(), |i: int| rf.map_values(|ys: Seq<A>| seq![uf[0][i]] + ys));
        assert(cart(uf) == concat_all(lparts));
        assert(lparts =~= x0.filter(q).map_values(f)) by {
            assert forall|i: int| 0 <= i < lparts.len() implies #[trigger] lparts[i] =~= x0.filter(q).map_values(f)[i] by {
            }
        }
        assert(x0.filter(q).map_values(f) =~= x0.filter(q).map_values(g)) by {
            assert forall|i: int| 0 <= i < x0.filter(q).len() implies q(#[trigger] x0.filter(q)[i]) by {
                x0.lemma_filter_pred(q, i);
            }
        }
        lemma_concat_filter(x0, q, g);
        // The filtered product of the lists.
        let parts = Seq::new(x0.len(), |i: int| r.map_values(|ys: Seq<A>| seq![x0[i]] + ys));
        assert(cart(u) == concat_all(parts));
        lemma_filter_concat_all(parts, aq);
        let fparts = parts.map_values(|t: Seq<Seq<A>>| t.filter(aq));
        assert(fparts =~= x0.map_values(g)) by {
            assert forall|i: int| 0 <= i < x0.len() implies #[trigger] fparts[i] == x0.map_values(g)[i] by {
                let x = x0[i];
                let pre = |ys: Seq<A>| seq![x] + ys;
                let qx = |ys: Seq<A>| aq(seq![x] + ys);
                assert forall|ys: Seq<A>| #[trigger] qx(ys) == aq(pre(ys)) by {
                }
                lemma_filter_map(r, pre, aq, qx);
                assert(parts[i] =~= r.map_values(pre));
                if q(x) {
                    assert forall|ys: Seq<A>| #[trigger] qx(ys) == aq(ys) by {
                        if aq(ys) {
                            assert forall|k: int| 0 <= k < (seq![x] + ys).len() implies q(#[trigger] (seq![x] + ys)[k]) by {
                                if k > 0 {
                                    assert((seq![x] + ys)[k] == ys[k - 1]);
                                }
                            }
                        }
                        if qx(ys) {
                            assert forall|k: int| 0 <= k < ys.len() implies q(#[trigger] ys[k]) by {
                                assert((seq![x] + ys)[k + 1] == ys[k]);
                            }
                        }
                    }
                    lemma_filter_ext(r, qx, aq);
                    assert(r.filter(aq).map_values(pre) =~= f(x));
                } else {
                    assert forall|ys: Seq<A>| #[trigger] qx(ys) == false by {
                        assert((seq![x] + ys)[0] == x);
                    }
                    r.lemma_all_neg_filter_empty(qx);
                    assert(r.filter(qx).map_values(pre) =~= Seq::<Seq<A>>::empty());
                }
            }
        }
    }
}

} // verus!

verus! {

/// Each tuple of a product takes its `j`-th item from the `j`-th list.
pub proof fn lemma_cart_index<A>(u: Seq<Seq<A>>, k: int)
    requires
        0 <= k < cart(u).len(),
    ensures
        cart(u)[k].len() == u.len(),
        forall|j: int| 0 <= j < u.len() ==> u[j].contains(#[trigger] cart(u)[k][j]),
    decreases u.len(),
{
    if u.len() > 0 {
        let r = cart(u.drop_first());
        let parts = Seq::new(u[0].len(), |i: int| r.map_values(|ys: Seq<A>| seq![u[0][i]] + ys));
        let (i, m) = lemma_concat_all_index(parts, k);
        lemma_cart_index(u.drop_first(), m);
        let t = cart(u)[k];
        assert(t == seq![u[0][i]] + r[m]);
        assert forall|j: int| 0 <= j < u.len() implies u[j].contains(#[trigger] t[j]) by {
            if j == 0 {
                assert(t[0] == u[0][i]);
            } else {
                assert(t[j] == r[m][j - 1]);
                assert(u.drop_first()[j - 1] == u[j]);
            }
        }
    }
}

/// Where an item of a concatenation comes from.
pub proof fn lemma_concat_all_index<A>(s: Seq<Seq<A>>, k: int) -> (r: (int, int))
    requires
        0 <= k < concat_all(s).len(),
    ensures
        0 <= r.0 < s.len(),
        0 <= r.1 < s[r.0].len(),
        concat_all(s)[k] == s[r.0][r.1],
    decreases s.len(),
{
    let init = concat_all(s.drop_last());
    if k < init.len() {
        let (i, m) = lemma_concat_all_index(s.drop_last(), k);
        (i, m)
    } else {
        (s.len() - 1, k - init.len())
    }
}

/// An item of a part is an item of the concatenation.
pub proof fn lemma_concat_all_member<A>(s: Seq<Seq<A>>, i: int, m: int)
    requires
        0 <= i < s.len(),
        0 <= m < s[i].len(),
    ensures
        concat_all(s).contains(s[i][m]),
    decreases s.len(),
{
    let init = concat_all(s.drop_last());
    if i < s.len() - 1 {
        lemma_concat_all_member(s.drop_last(), i, m);
        let k = choose|k: int| 0 <= k < init.len() && init[k] == s[i][m];
        assert(concat_all(s)[k] == s[i][m]);
    } else {
        assert(concat_all(s)[init.len() + m] == s[i][m]);
    }
}

/// A tuple that takes its `j`-th item from the `j`-th list is in the product.
pub proof fn lemma_cart_member<A>(u: Seq<Seq<A>>, t: Seq<A>)
    requires
        t.len() == u.len(),
        forall|j: int| 0 <= j < u.len() ==> u[j].contains(#[trigger] t[j]),
    ensures
        cart(u).contains(t),
    decreases u.len(),
{
    if u.len() == 0 {
        assert(t =~= Seq::<A>::empty());
        assert(cart(u)[0] == t);
    } else {
        let u1 = u.drop_first();
        let t1 = t.drop_first();
        assert forall|j: int| 0 <= j < u1.len() implies u1[j].contains(#[trigger] t1[j]) by {
            assert(u[j + 1].contains(t[j + 1]));
        }
        lemma_cart_member(u1, t1);
        let r = cart(u1);
        let m = choose|m: int| 0 <= m < r.len() && r[m] == t1;
        assert(u[0].contains(t[0]));
        let i = choose|i: int| 0 <= i < u[0].len() && u[0][i] == t[0];
        let parts = Seq::new(u[0].len(), |i: int| r.map_values(|ys: Seq<A>| seq![u[0][i]] + ys));
        assert(parts[i][m] =~= t);
        lemma_concat_all_member(parts, i, m);
    }
}

/// A sum over items each at least as large as another's is at least as large.
pub proof fn lemma_sum_nat_le(a: Seq<nat>, b: Seq<nat>)
    requires
        a.len() == b.len(),
        forall|j: int| 0 <= j < a.len() ==> #[trigger] a[j] <= b[j],
    ensures
        sum_nat(a) <= sum_nat(b),
    decreases a.len(),
{
    if a.len() > 0 {
        lemma_sum_nat_le(a.drop_last(), b.drop_last());
    }
}

} // verus!
