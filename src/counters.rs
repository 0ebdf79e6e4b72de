//! Counter systems: configurations are tuples over the naturals extended with
//! `ω`, which stands for any number; a world of supercompilation is built from
//! a start configuration and guarded rules.
use std::marker::PhantomData;
use vstd::prelude::*;
use vstd::string::StringExecFns;

use crate::big_step_sc::ScWorld;
use crate::misc::{cart, cartesian, vv, History};

verus! {

/// A number, or `ω`: any number.
#[derive(Clone, Copy, Debug)]
pub enum NW {
    N(isize),
    W(),
}

/// The symbol `ω`, turned into `NW::W()` by `NW::from`.
pub struct Omega;

impl PartialEq for NW {
    fn eq(&self, o: &NW) -> (r: bool) {
        match (self, o) {
            (NW::N(i), NW::N(j)) => *i == *j,
            (NW::W(), NW::W()) => true,
            _ => false,
        }
    }
}

impl vstd::std_specs::cmp::PartialEqSpecImpl for NW {
    open spec fn obeys_eq_spec() -> bool {
        true
    }

    open spec fn eq_spec(&self, o: &NW) -> bool {
        *self == *o
    }
}

impl Eq for NW {
}

/// `ω` equals every number.
pub open spec fn nw_eq_int(nw: NW, j: isize) -> bool {
    match nw {
        NW::N(i) => i == j,
        NW::W() => true,
    }
}

impl PartialEq<isize> for NW {
    fn eq(&self, j: &isize) -> (r: bool) {
        match self {
            NW::N(i) => *i == *j,
            NW::W() => true,
        }
    }
}

impl vstd::std_specs::cmp::PartialEqSpecImpl<isize> for NW {
    open spec fn obeys_eq_spec() -> bool {
        true
    }

    open spec fn eq_spec(&self, j: &isize) -> bool {
        nw_eq_int(*self, *j)
    }
}

/// How a number or `ω` compares with a number: `ω` is equal to every number.
pub open spec fn nw_cmp_int(nw: NW, j: isize) -> Option<std::cmp::Ordering> {
    match nw {
        NW::N(i) => Some(
            if i < j {
                std::cmp::Ordering::Less
            } else if i > j {
                std::cmp::Ordering::Greater
            } else {
                std::cmp::Ordering::Equal
            },
        ),
        NW::W() => Some(std::cmp::Ordering::Equal),
    }
}

impl PartialOrd<isize> for NW {
    fn partial_cmp(&self, j: &isize) -> (r: Option<std::cmp::Ordering>) {
        match self {
            NW::N(i) => Some(
                if *i < *j {
                    std::cmp::Ordering::Less
                } else if *i > *j {
                    std::cmp::Ordering::Greater
                } else {
                    std::cmp::Ordering::Equal
                },
            ),
            NW::W() => Some(std::cmp::Ordering::Equal),
        }
    }
}

impl vstd::std_specs::cmp::PartialOrdSpecImpl<isize> for NW {
    open spec fn obeys_partial_cmp_spec() -> bool {
        true
    }

    open spec fn partial_cmp_spec(&self, j: &isize) -> Option<std::cmp::Ordering> {
        nw_cmp_int(*self, *j)
    }
}

impl From<isize> for NW {
    fn from(item: isize) -> (r: NW) {
        NW::N(item)
    }
}

impl vstd::std_specs::convert::FromSpecImpl<isize> for NW {
    open spec fn obeys_from_spec() -> bool {
        true
    }

    open spec fn from_spec(item: isize) -> NW {
        NW::N(item)
    }
}

impl From<Omega> for NW {
    fn from(item: Omega) -> (r: NW) {
        NW::W()
    }
}

impl vstd::std_specs::convert::FromSpecImpl<Omega> for NW {
    open spec fn obeys_from_spec() -> bool {
        true
    }

    open spec fn from_spec(item: Omega) -> NW {
        NW::W()
    }
}

/// The sum, `ω` when either is `ω`.
pub open spec fn nw_add(a: NW, b: NW) -> NW {
    match (a, b) {
        (NW::N(i), NW::N(j)) => NW::N((i + j) as isize),
        _ => NW::W(),
    }
}

/// The difference, `ω` when either is `ω`.
pub open spec fn nw_sub(a: NW, b: NW) -> NW {
    match (a, b) {
        (NW::N(i), NW::N(j)) => NW::N((i - j) as isize),
        _ => NW::W(),
    }
}

/// Whether the sum of two numbers fits an `isize`.
pub open spec fn nw_add_fits(a: NW, b: NW) -> bool {
    match (a, b) {
        (NW::N(i), NW::N(j)) => isize::MIN <= i + j <= isize::MAX,
        _ => true,
    }
}

/// Whether the difference of two numbers fits an `isize`.
pub open spec fn nw_sub_fits(a: NW, b: NW) -> bool {
    match (a, b) {
        (NW::N(i), NW::N(j)) => isize::MIN <= i - j <= isize::MAX,
        _ => true,
    }
}

impl std::ops::Add<NW> for NW {
    type Output = NW;

    fn add(self, nw: NW) -> (r: NW) {
        match (self, nw) {
            (NW::N(i), NW::N(j)) => NW::N(i + j),
            (NW::N(_), NW::W()) => NW::W(),
            (NW::W(), _) => NW::W(),
        }
    }
}

impl vstd::std_specs::ops::AddSpecImpl<NW> for NW {
    open spec fn obeys_add_spec() -> bool {
        true
    }

    open spec fn add_req(self, nw: NW) -> bool {
        nw_add_fits(self, nw)
    }

    open spec fn add_spec(self, nw: NW) -> NW {
        nw_add(self, nw)
    }
}

impl std::ops::Add<isize> for NW {
    type Output = NW;

    fn add(self, j: isize) -> (r: NW) {
        match self {
            NW::N(i) => NW::N(i + j),
            NW::W() => NW::W(),
        }
    }
}

impl vstd::std_specs::ops::AddSpecImpl<isize> for NW {
    open spec fn obeys_add_spec() -> bool {
        true
    }

    open spec fn add_req(self, j: isize) -> bool {
        nw_add_fits(self, NW::N(j))
    }

    open spec fn add_spec(self, j: isize) -> NW {
        nw_add(self, NW::N(j))
    }
}

impl std::ops::Sub<NW> for NW {
    type Output = NW;

    fn sub(self, nw: NW) -> (r: NW) {
        match (self, nw) {
            (NW::N(i), NW::N(j)) => NW::N(i - j),
            (NW::N(_), NW::W()) => NW::W(),
            (NW::W(), _) => NW::W(),
        }
    }
}

impl vstd::std_specs::ops::SubSpecImpl<NW> for NW {
    open spec fn obeys_sub_spec() -> bool {
        true
    }

    open spec fn sub_req(self, nw: NW) -> bool {
        nw_sub_fits(self, nw)
    }

    open spec fn sub_spec(self, nw: NW) -> NW {
        nw_sub(self, nw)
    }
}

impl std::ops::Sub<isize> for NW {
    type Output = NW;

    fn sub(self, j: isize) -> (r: NW) {
        match self {
            NW::N(i) => NW::N(i - j),
            NW::W() => NW::W(),
        }
    }
}

impl vstd::std_specs::ops::SubSpecImpl<isize> for NW {
    open spec fn obeys_sub_spec() -> bool {
        true
    }

    open spec fn sub_req(self, j: isize) -> bool {
        nw_sub_fits(self, NW::N(j))
    }

    open spec fn sub_spec(self, j: isize) -> NW {
        nw_sub(self, NW::N(j))
    }
}

/// The decimal digits of `n`.
pub open spec fn digits(n: nat) -> Seq<char>
    decreases n,
{
    if n < 10 {
        seq![(('0' as u8) + (n as u8)) as char]
    } else {
        digits(n / 10).push((('0' as u8) + ((n % 10) as u8)) as char)
    }
}

/// The decimal text of `i`, with a minus sign when negative.
pub open spec fn decimal(i: int) -> Seq<char> {
    if i < 0 {
        seq!['-'] + digits((-i) as nat)
    } else {
        digits(i as nat)
    }
}

/// Relies on std's `Display` for `isize`: the number in decimal, with a
/// minus sign when negative.
#[verifier::external_body]
fn decimal_text(i: isize) -> (r: String)
    ensures
        r@ == decimal(i as int),
{
    i.to_string()
}

/// The text of a number or `ω`.
pub open spec fn nw_text(nw: NW) -> Seq<char> {
    match nw {
        NW::N(i) => decimal(i as int),
        NW::W() => seq!['ω'],
    }
}

impl NW {
    /// The number in decimal, or `ω`.
    pub fn to_string(&self) -> (r: String)
        ensures
            r@ == nw_text(*self),
    {
        match self {
            NW::N(i) => decimal_text(*i),
            NW::W() => {
                let r = String::from_str("ω");
                proof {
                    reveal_strlit("ω");
                }
                r
            },
        }
    }
}

/// Whether the set of values of `a` lies in that of `b`.
pub open spec fn is_in_v(a: NW, b: NW) -> bool {
    match (a, b) {
        (NW::N(i), NW::N(j)) => i == j,
        (_, NW::W()) => true,
        (NW::W(), NW::N(_)) => false,
    }
}

/// Whether every value of `nwi` is a value of `nwj`.
pub fn is_in(nwi: &NW, nwj: &NW) -> (r: bool)
    ensures
        r == is_in_v(*nwi, *nwj),
{
    match (nwi, nwj) {
        (NW::N(i), NW::N(j)) => *i == *j,
        (_, NW::W()) => true,
        (NW::W(), NW::N(_)) => false,
    }
}

/// A configuration of a counter system.
#[derive(Clone, PartialEq, Eq, Debug)]
pub struct NWC(pub Vec<NW>);

/// The configuration with the components `nws`.
pub fn mk_nwc(nws: &[NW]) -> (r: NWC)
    ensures
        r.0@ == nws@,
{
    let mut v: Vec<NW> = Vec::new();
    let mut i: usize = 0;
    while i < nws.len()
        invariant
            i <= nws.len(),
            v@ == nws@.take(i as int),
        decreases nws.len() - i,
    {
        v.push(nws[i]);
        i = i + 1;
        assert(v@ =~= nws@.take(i as int));
    }
    assert(v@ =~= nws@);
    NWC(v)
}

/// A configuration with the same components.
fn copy_nwc(c: &NWC) -> (r: NWC)
    ensures
        r.0@ == c.0@,
{
    let v = c.0.clone();
    assert(v@ =~= c.0@);
    NWC(v)
}

/// The texts of the components, separated by commas.
pub open spec fn joined(nws: Seq<NW>) -> Seq<char>
    decreases nws.len(),
{
    if nws.len() == 0 {
        Seq::empty()
    } else if nws.len() == 1 {
        nw_text(nws[0])
    } else {
        joined(nws.drop_last()) + seq![','] + nw_text(nws.last())
    }
}

impl NWC {
    /// The configuration as a tuple: `(1,ω,2)`.
    pub fn to_string(&self) -> (r: String)
        ensures
            r@ == seq!['('] + joined(self.0@) + seq![')'],
    {
        let mut r = String::from_str("(");
        proof {
            reveal_strlit("(");
        }
        let mut i: usize = 0;
        while i < self.0.len()
            invariant
                i <= self.0.len(),
                r@ == seq!['('] + joined(self.0@.take(i as int)),
            decreases self.0.len() - i,
        {
            if i > 0 {
                r.append(",");
                proof {
                    reveal_strlit(",");
                }
            }
            let t = self.0[i].to_string();
            r.append(t.as_str());
            proof {
                assert(self.0@.take(i + 1).drop_last() =~= self.0@.take(i as int));
                if i == 0 {
                    assert(self.0@.take(1) =~= seq![self.0@[0]]);
                }
            }
            i = i + 1;
            assert(r@ =~= seq!['('] + joined(self.0@.take(i as int)));
        }
        r.append(")");
        proof {
            reveal_strlit(")");
            assert(self.0@.take(i as int) =~= self.0@);
        }
        r
    }
}

} // verus!

verus! {

/// A counter system: a start configuration, guarded rules and a predicate
/// on unsafe configurations.
pub trait CountersWorld {
    fn start() -> NWC;

    /// The rules on a configuration: for each, whether its guard holds and
    /// the configuration it leads to.
    fn rules(c: &NWC) -> Vec<(bool, NWC)>;

    fn is_unsafe(c: &NWC) -> bool;
}

/// The world of supercompilation of a counter system: numbers from `max_nw`
/// on are too big, and histories of `max_depth` configurations are too long.
pub struct CountersScWorld<CW: CountersWorld> {
    cw: PhantomData<CW>,
    max_nw: isize,
    max_depth: usize,
}

impl<CW: CountersWorld> CountersScWorld<CW> {
    pub fn new(_cw: CW, max_nw: isize, max_depth: usize) -> (r: CountersScWorld<CW>)
        ensures
            r.max_nw_v() == max_nw,
            r.max_depth_v() == max_depth,
    {
        CountersScWorld { cw: PhantomData, max_nw: max_nw, max_depth: max_depth }
    }

    /// Numbers from this bound on are too big.
    pub closed spec fn max_nw_v(&self) -> isize {
        self.max_nw
    }

    /// Histories of this length are too long.
    pub closed spec fn max_depth_v(&self) -> usize {
        self.max_depth
    }
}

/// Whether a component is a number of `max_nw` or more.
pub open spec fn too_big_nw_v(nw: NW, max_nw: isize) -> bool {
    match nw {
        NW::W() => false,
        NW::N(i) => i >= max_nw,
    }
}

/// Whether some component of `c` is too big.
pub open spec fn too_big_v(c: Seq<NW>, max_nw: isize) -> bool {
    exists|i: int| 0 <= i < c.len() && too_big_nw_v(#[trigger] c[i], max_nw)
}

fn is_too_big_nw(nw: NW, max_nw: isize) -> (r: bool)
    ensures
        r == too_big_nw_v(nw, max_nw),
{
    match nw {
        NW::W() => false,
        NW::N(i) => i >= max_nw,
    }
}

fn is_too_big(c: &NWC, max_nw: isize) -> (r: bool)
    ensures
        r == too_big_v(c.0@, max_nw),
{
    let mut i: usize = 0;
    while i < c.0.len()
        invariant
            i <= c.0.len(),
            forall|k: int| 0 <= k < i ==> !too_big_nw_v(#[trigger] c.0@[k], max_nw),
        decreases c.0.len() - i,
    {
        if is_too_big_nw(c.0[i], max_nw) {
            return true;
        }
        i = i + 1;
    }
    false
}

/// The configurations that the rules whose guards hold lead to.
pub open spec fn drive_v(rs: Seq<(bool, Seq<NW>)>) -> Seq<Seq<NW>> {
    rs.filter(|p: (bool, Seq<NW>)| p.0).map_values(|p: (bool, Seq<NW>)| p.1)
}

/// The components of a list of configurations.
pub open spec fn nwcs(cs: Seq<NWC>) -> Seq<Seq<NW>> {
    cs.map_values(|c: NWC| c.0@)
}

/// The rules given as pairs of a guard and the components of the target.
pub open spec fn rules_view(rs: Seq<(bool, NWC)>) -> Seq<(bool, Seq<NW>)> {
    rs.map_values(|p: (bool, NWC)| (p.0, p.1.0@))
}

/// The configurations that the rules `rs` whose guards hold lead to.
pub fn drive_rules(rs: &Vec<(bool, NWC)>) -> (r: Vec<NWC>)
    ensures
        nwcs(r@) == drive_v(rules_view(rs@)),
{
    let ghost rv = rules_view(rs@);
    let mut r: Vec<NWC> = Vec::new();
    let mut i: usize = 0;
    while i < rs.len()
        invariant
            i <= rs.len(),
            rv == rules_view(rs@),
            nwcs(r@) == rv.take(i as int).filter(|p: (bool, Seq<NW>)| p.0).map_values(
                |p: (bool, Seq<NW>)| p.1,
            ),
        decreases rs.len() - i,
    {
        proof {
            assert(rv.take(i + 1) =~= rv.take(i as int).push(rv[i as int]));
            rv.take(i as int).lemma_filter_push(rv[i as int], |p: (bool, Seq<NW>)| p.0);
        }
        if rs[i].0 {
            let ghost before = r@;
            r.push(copy_nwc(&rs[i].1));
            assert(nwcs(r@) =~= nwcs(before).push(rv[i as int].1));
        }
        i = i + 1;
    }
    assert(rv.take(i as int) =~= rv);
    r
}

/// The configurations that the rules of `CW` whose guards hold on `c` lead to.
fn drive<CW: CountersWorld>(c: &NWC) -> Vec<NWC> {
    let rs = CW::rules(c);
    drive_rules(&rs)
}

} // verus!

verus! {

/// Copying a number or `ω` keeps it.
pub proof fn lemma_nw_clone_exact()
    ensures
        crate::misc::clone_exact::<NW>(),
{
}

/// The components that a component can be generalized to: itself and `ω`.
pub open spec fn rebuild1_v(nw: NW) -> Seq<NW> {
    match nw {
        NW::N(_) => seq![nw, NW::W()],
        NW::W() => seq![NW::W()],
    }
}

/// The generalizations of a configuration other than itself, each as a
/// one-child alternative.
pub open spec fn rebuild_v(c: Seq<NW>) -> Seq<Seq<Seq<NW>>> {
    cart(c.map_values(|nw: NW| rebuild1_v(nw))).filter(|nws: Seq<NW>| nws != c).map_values(
        |nws: Seq<NW>| seq![nws],
    )
}

fn rebuild1(nw: &NW) -> (r: Vec<NW>)
    ensures
        r@ == rebuild1_v(*nw),
{
    let r = match nw {
        NW::N(_) => vec![*nw, NW::W()],
        NW::W() => vec![NW::W()],
    };
    assert(r@ =~= rebuild1_v(*nw));
    r
}

fn same_nwc(a: &NWC, b: &NWC) -> (r: bool)
    ensures
        r == (a.0@ == b.0@),
{
    if a.0.len() != b.0.len() {
        return false;
    }
    let mut i: usize = 0;
    while i < a.0.len()
        invariant
            i <= a.0.len(),
            a.0.len() == b.0.len(),
            forall|k: int| 0 <= k < i ==> a.0@[k] == b.0@[k],
        decreases a.0.len() - i,
    {
        if a.0[i] != b.0[i] {
            return false;
        }
        i = i + 1;
    }
    assert(a.0@ =~= b.0@);
    true
}

fn rebuild(c: &NWC) -> (r: Vec<Vec<NWC>>)
    ensures
        r@.map_values(|cs: Vec<NWC>| nwcs(cs@)) == rebuild_v(c.0@),
{
    let mut parts: Vec<Vec<NW>> = Vec::new();
    let mut i: usize = 0;
    while i < c.0.len()
        invariant
            i <= c.0.len(),
            vv(parts) == c.0@.map_values(|nw: NW| rebuild1_v(nw)).take(i as int),
        decreases c.0.len() - i,
    {
        let p = rebuild1(&c.0[i]);
        let ghost before = vv(parts);
        parts.push(p);
        assert(vv(parts) =~= before.push(p@));
        i = i + 1;
        assert(vv(parts) =~= c.0@.map_values(|nw: NW| rebuild1_v(nw)).take(i as int));
    }
    assert(c.0@.map_values(|nw: NW| rebuild1_v(nw)).take(i as int) =~= c.0@.map_values(
        |nw: NW| rebuild1_v(nw),
    ));
    proof {
        lemma_nw_clone_exact();
    }
    let nwss = cartesian(&parts);
    let ghost all = vv(nwss);
    let ghost keep = |nws: Seq<NW>| nws != c.0@;
    let ghost one = |nws: Seq<NW>| seq![nws];
    let mut r: Vec<Vec<NWC>> = Vec::new();
    let mut k: usize = 0;
    while k < nwss.len()
        invariant
            k <= nwss.len(),
            all == vv(nwss),
            r@.map_values(|cs: Vec<NWC>| nwcs(cs@)) == all.take(k as int).filter(
                |nws: Seq<NW>| nws != c.0@,
            ).map_values(|nws: Seq<NW>| seq![nws]),
        decreases nwss.len() - k,
    {
        proof {
            assert(all.take(k + 1) =~= all.take(k as int).push(all[k as int]));
            all.take(k as int).lemma_filter_push(all[k as int], |nws: Seq<NW>| nws != c.0@);
        }
        let c1 = mk_nwc(nwss[k].as_slice());
        if !same_nwc(&c1, c) {
            let ghost before = r@;
            let ghost v1 = c1.0@;
            r.push(vec![c1]);
            assert(nwcs(r@[r@.len() - 1]@) =~= seq![v1]);
            assert(r@.map_values(|cs: Vec<NWC>| nwcs(cs@)) =~= before.map_values(
                |cs: Vec<NWC>| nwcs(cs@),
            ).push(seq![v1]));
        }
        k = k + 1;
    }
    assert(all.take(k as int) =~= all);
    r
}

impl<CW: CountersWorld> ScWorld for CountersScWorld<CW> {
    type C = NWC;

    closed spec fn dangerous(&self, h: Seq<NWC>) -> bool {
        (exists|i: int| 0 <= i < h.len() && too_big_v(#[trigger] h[i].0@, self.max_nw)) || h.len()
            >= self.max_depth
    }

    closed spec fn foldable(&self, c1: NWC, c2: NWC) -> bool {
        forall|i: int|
            0 <= i < c1.0.len() && i < c2.0.len() ==> is_in_v(#[trigger] c1.0@[i], c2.0@[i])
    }

    /// Not stated: configurations hold vectors (see `develop_is_exact`);
    /// `drive` and `rebuild` state what `develop` combines.
    closed spec fn developed(&self, c: NWC) -> Seq<Seq<NWC>> {
        Seq::empty()
    }

    closed spec fn depth_bound(&self) -> nat {
        self.max_depth as nat
    }

    closed spec fn develop_is_exact(&self) -> bool {
        false
    }

    proof fn lemma_whistle_bound(&self, h: Seq<NWC>) {
    }

    fn is_dangerous(&self, h: &History<NWC>) -> (r: bool) {
        let max_nw = self.max_nw;
        let too_big = (|c: &NWC| -> (b: bool)
            ensures
                b == too_big_v(c.0@, max_nw),
            { is_too_big(c, max_nw) });
        if h.any(too_big) {
            true
        } else {
            h.length() >= self.max_depth
        }
    }

    fn is_foldable_to(&self, c1: &NWC, c2: &NWC) -> (r: bool) {
        let mut i: usize = 0;
        while i < c1.0.len() && i < c2.0.len()
            invariant
                forall|k: int| 0 <= k < i ==> is_in_v(#[trigger] c1.0@[k], c2.0@[k]),
                i <= c1.0.len(),
                i <= c2.0.len(),
            decreases c1.0.len() - i,
        {
            if !is_in(&c1.0[i], &c2.0[i]) {
                return false;
            }
            i = i + 1;
        }
        true
    }

    fn develop(&self, c: &NWC) -> (r: Vec<Vec<NWC>>) {
        let mut r: Vec<Vec<NWC>> = vec![drive::<CW>(c)];
        let mut more = rebuild(c);
        r.append(&mut more);
        r
    }
}

} // verus!

verus! {

/// A configuration folds to another when each component lies in the
/// component at the same place (the shorter length decides).
pub proof fn lemma_counters_foldable<CW: CountersWorld>(s: CountersScWorld<CW>, c1: NWC, c2: NWC)
    ensures
        s.foldable(c1, c2) == forall|i: int|
            0 <= i < c1.0.len() && i < c2.0.len() ==> is_in_v(#[trigger] c1.0@[i], c2.0@[i]),
{
}

/// The whistle blows when some configuration of the history has a component
/// of `max_nw` or more, or when the history holds `max_depth` configurations.
pub proof fn lemma_counters_dangerous<CW: CountersWorld>(s: CountersScWorld<CW>, h: Seq<NWC>)
    ensures
        s.dangerous(h) == ((exists|i: int| 0 <= i < h.len() && too_big_v(#[trigger] h[i].0@, s.max_nw_v())) || h.len() >= s.max_depth_v()),
        s.depth_bound() == s.max_depth_v(),
{
}

} // verus!
