//! Placement: choose nodes for a volume's legs, spread across failure domains
//! at a rung and load-balanced within each domain. Deterministic given equal
//! inputs.

use crate::double;
use crate::names;
use crate::names::{Dup, NameMap};
use crate::text;
use vstd::prelude::*;
use vstd::string::*;

verus! {

/// A node that a leg could be placed on.
#[derive(Debug)]
pub struct Candidate {
    pub name: String,
    pub labels: NameMap<String>,
    pub free_bytes: u64,
    pub total_bytes: u64,
}

/// What a [`Candidate`] holds.
#[verifier::ext_equal]
pub struct CandidateView {
    pub name: Seq<char>,
    pub labels: Map<Seq<char>, Seq<char>>,
    pub free_bytes: u64,
    pub total_bytes: u64,
}

impl View for Candidate {
    type V = CandidateView;

    open spec fn view(&self) -> CandidateView {
        CandidateView {
            name: self.name@,
            labels: self.labels@,
            free_bytes: self.free_bytes,
            total_bytes: self.total_bytes,
        }
    }
}

impl DeepView for Candidate {
    type V = CandidateView;

    open spec fn deep_view(&self) -> CandidateView {
        self@
    }
}

impl Dup for Candidate {
    fn dup(&self) -> (r: Self) {
        Candidate {
            name: self.name.clone(),
            labels: self.labels.dup(),
            free_bytes: self.free_bytes,
            total_bytes: self.total_bytes,
        }
    }
}

impl Clone for Candidate {
    fn clone(&self) -> (r: Self)
        ensures
            r@ == self@,
    {
        self.dup()
    }
}

impl CandidateView {
    /// The share of the capacity that is free, as the bits of a double. A node
    /// that reports no capacity has none free, and stays eligible.
    pub open spec fn free_ratio(self) -> nat {
        double::ratio_bits(self.free_bytes, self.total_bytes)
    }

    /// Whether this node is preferred over `other`: the emptier one is, and of
    /// two that are equally empty the one with the lower name.
    pub open spec fn better(self, other: Self) -> bool {
        ||| self.free_ratio() > other.free_ratio()
        ||| self.free_ratio() == other.free_ratio() && text::lt(self.name, other.name)
    }
}

impl Candidate {
    fn free_ratio(&self) -> (r: u64)
        ensures
            r == self@.free_ratio(),
    {
        double::ratio(self.free_bytes, self.total_bytes)
    }

    fn better(&self, other: &Candidate) -> (r: bool)
        ensures
            r == self@.better(other@),
    {
        let a: u64 = self.free_ratio();
        let b: u64 = other.free_ratio();
        a > b || (a == b && text::less(self.name.as_str(), other.name.as_str()))
    }
}

/// The values of the labels from the top rung down to and including `rung`,
/// where the node has them.
pub open spec fn label_chain(
    labels: Map<Seq<char>, Seq<char>>,
    rungs: Seq<Seq<char>>,
    rung: Seq<char>,
) -> Seq<Seq<char>>
    decreases rungs.len(),
{
    if rungs.len() == 0 {
        Seq::empty()
    } else {
        let here = if labels.contains_key(rungs[0]) {
            seq![labels[rungs[0]]]
        } else {
            Seq::empty()
        };
        if rungs[0] == rung {
            here
        } else {
            here + label_chain(labels, rungs.drop_first(), rung)
        }
    }
}

/// The failure domain of a node with these labels at `rung`.
pub open spec fn domain(
    labels: Map<Seq<char>, Seq<char>>,
    rungs: Seq<Seq<char>>,
    rung: Seq<char>,
) -> Seq<char> {
    let chain = label_chain(labels, rungs, rung);
    if chain.len() > 0 {
        text::joined(chain, "/"@)
    } else if labels.contains_key("node"@) {
        labels["node"@]
    } else {
        "?"@
    }
}

/// The failure domain a node belongs to at `rung`: its label-chain prefix
/// from the top rung down to and including `rung`, joined with '/'. Missing
/// rung labels are skipped; a node with none of them falls back to its own
/// name (it is its own domain).
pub fn domain_at(labels: &NameMap<String>, rungs: &[String], rung: &str) -> (r: String)
    ensures
        r@ == domain(labels@, rungs.deep_view(), rung@),
{
    let mut parts: Vec<String> = Vec::new();
    let ghost all = rungs.deep_view();
    let ghost whole = label_chain(labels@, all, rung@);
    let mut i: usize = 0;
    let mut more: bool = true;
    assert(all.skip(0) =~= all);
    assert(parts.deep_view() + whole =~= whole);
    while more && i < rungs.len()
        invariant
            i <= rungs.len(),
            all == rungs.deep_view(),
            whole == label_chain(labels@, all, rung@),
            more ==> whole == parts.deep_view() + label_chain(
                labels@,
                all.skip(i as int),
                rung@,
            ),
            !more ==> whole == parts.deep_view(),
        decreases rungs.len() - i,
    {
        let r: &String = &rungs[i];
        let ghost before = parts.deep_view();
        let ghost here = if labels@.contains_key(r@) {
            seq![labels@[r@]]
        } else {
            Seq::empty()
        };
        assert(all.skip(i as int)[0] == r@);
        assert(all.skip(i as int).drop_first() =~= all.skip(i + 1));
        if let Some(v) = labels.get(r.as_str()) {
            parts.push(v.clone());
        }
        assert(parts.deep_view() =~= before + here);
        if text::same(r.as_str(), rung) {
            more = false;
        } else {
            assert(before + (here + label_chain(labels@, all.skip(i + 1), rung@)) =~= (before
                + here) + label_chain(labels@, all.skip(i + 1), rung@));
        }
        i = i + 1;
    }
    if more {
        assert(parts.deep_view() + label_chain(labels@, all.skip(i as int), rung@)
            =~= parts.deep_view());
    }
    if parts.len() == 0 {
        match labels.get("node") {
            Some(n) => n.clone(),
            None => text::owned("?"),
        }
    } else {
        text::join(&parts, "/")
    }
}

/// What a placement is asked: across which rung of which rungs, how many legs
/// of what size.
pub struct Question {
    pub rungs: Seq<Seq<char>>,
    pub rung: Seq<char>,
    pub replicas: u32,
    pub size_bytes: u64,
}

impl Question {
    /// Whether the node has room for a leg.
    pub open spec fn fits(self, c: CandidateView) -> bool {
        c.free_bytes >= self.size_bytes
    }

    pub open spec fn domain_of(self, c: CandidateView) -> Seq<char> {
        domain(c.labels, self.rungs, self.rung)
    }

    /// Whether the candidate `i` is the one to take of its domain: it has room,
    /// no other of its domain with room is better, and it is the first such.
    pub open spec fn leads(self, cs: Seq<CandidateView>, i: int) -> bool {
        &&& 0 <= i < cs.len()
        &&& self.fits(cs[i])
        &&& forall|j: int|
            0 <= j < cs.len() && self.fits(#[trigger] cs[j]) && self.domain_of(cs[j])
                == self.domain_of(cs[i]) && j != i ==> cs[i].better(cs[j]) || (i < j
                && !cs[j].better(cs[i]))
    }

    /// The domains that have a candidate with room.
    pub open spec fn domains(self, cs: Seq<CandidateView>) -> Set<Seq<char>> {
        Set::new(
            |d: Seq<char>|
                exists|i: int|
                    0 <= i < cs.len() && self.fits(#[trigger] cs[i]) && self.domain_of(cs[i]) == d,
        )
    }

    /// Whether `a` is taken before `b`: the better one is, and of two equally
    /// good ones the one whose domain has the lower name.
    pub open spec fn ahead(self, a: CandidateView, b: CandidateView) -> bool {
        ||| a.better(b)
        ||| !b.better(a) && text::lt(self.domain_of(a), self.domain_of(b))
    }

    /// Whether `picks` are the candidates to take, one of each domain with
    /// room, in the order in which they are taken.
    pub open spec fn ranks(self, cs: Seq<CandidateView>, picks: Seq<int>) -> bool {
        &&& forall|i: int| #[trigger] picks.contains(i) <==> self.leads(cs, i)
        &&& forall|p: int, q: int|
            0 <= p < q < picks.len() ==> self.ahead(
                cs[#[trigger] picks[p]],
                cs[#[trigger] picks[q]],
            )
    }

    /// The candidates to take, in order.
    pub open spec fn ranking(self, cs: Seq<CandidateView>) -> Seq<int> {
        choose|picks: Seq<int>| self.ranks(cs, picks)
    }

    /// What the placement is: the names of the nodes for the legs, or why
    /// there are none.
    pub open spec fn answer(self, cs: Seq<CandidateView>) -> Result<Seq<Seq<char>>, Seq<char>> {
        if forall|i: int| 0 <= i < cs.len() ==> !self.fits(#[trigger] cs[i]) {
            Err(
                "no node with "@ + text::dec(self.size_bytes as nat) + " bytes free ("@ + text::dec(
                    cs.len(),
                ) + " candidates)"@,
            )
        } else if self.domains(cs).len() < self.replicas {
            Err(
                "need "@ + text::dec(self.replicas as nat) + " distinct domains at rung "@
                    + text::quoted_text(self.rung) + ", found "@ + text::dec(self.domains(cs).len())
                    + ": ["@ + text::joined(names::sorted(self.domains(cs)), ", "@) + "]"@,
            )
        } else {
            Ok(
                Seq::new(
                    self.replicas as nat,
                    |k: int| cs[self.ranking(cs)[k]].name,
                ),
            )
        }
    }
}

impl CandidateView {
    /// Two nodes of which neither is preferred are equally empty and have one
    /// name.
    proof fn better_total(self, other: Self)
        ensures
            self.better(other) || other.better(self) || (self.free_ratio() == other.free_ratio()
                && self.name == other.name),
    {
        text::lt_total(self.name, other.name);
    }

    proof fn better_asymmetric(self, other: Self)
        requires
            self.better(other),
        ensures
            !other.better(self),
    {
        if self.free_ratio() == other.free_ratio() {
            text::lt_asymmetric(self.name, other.name);
        }
    }

    proof fn better_transitive(self, b: Self, c: Self)
        requires
            self.better(b),
            b.better(c),
        ensures
            self.better(c),
    {
        if self.free_ratio() == b.free_ratio() && b.free_ratio() == c.free_ratio() {
            text::lt_transitive(self.name, b.name, c.name);
        }
    }

    /// What is better than a node is better than every node that is no better
    /// than that one.
    proof fn better_than_no_better(self, b: Self, c: Self)
        requires
            self.better(b),
            !c.better(b),
        ensures
            self.better(c),
    {
        b.better_total(c);
        if b.better(c) {
            self.better_transitive(b, c);
        }
    }
}

impl Question {
    /// A domain has one candidate to take of it.
    pub proof fn leader_unique(self, cs: Seq<CandidateView>, i: int, j: int)
        requires
            self.leads(cs, i),
            self.leads(cs, j),
            self.domain_of(cs[i]) == self.domain_of(cs[j]),
        ensures
            i == j,
    {
        if i != j {
            if cs[i].better(cs[j]) {
                cs[i].better_asymmetric(cs[j]);
            }
            if cs[j].better(cs[i]) {
                cs[j].better_asymmetric(cs[i]);
            }
        }
    }

    proof fn ahead_asymmetric(self, a: CandidateView, b: CandidateView)
        requires
            self.ahead(a, b),
        ensures
            !self.ahead(b, a),
    {
        if a.better(b) {
            a.better_asymmetric(b);
        } else {
            text::lt_asymmetric(self.domain_of(a), self.domain_of(b));
        }
    }

    /// The candidates to take and their order are determined by the question
    /// and the candidates: placement is deterministic.
    pub proof fn ranking_unique(self, cs: Seq<CandidateView>, a: Seq<int>, b: Seq<int>)
        requires
            self.ranks(cs, a),
            self.ranks(cs, b),
        ensures
            a == b,
    {
        assert forall|i: int| a.contains(i) == b.contains(i) by {
            assert(a.contains(i) == self.leads(cs, i));
            assert(b.contains(i) == self.leads(cs, i));
        }
        self.ordered_unique(cs, a, b);
    }

    proof fn ordered_unique(self, cs: Seq<CandidateView>, a: Seq<int>, b: Seq<int>)
        requires
            forall|i: int| a.contains(i) == b.contains(i),
            forall|p: int, q: int|
                0 <= p < q < a.len() ==> self.ahead(cs[#[trigger] a[p]], cs[#[trigger] a[q]]),
            forall|p: int, q: int|
                0 <= p < q < b.len() ==> self.ahead(cs[#[trigger] b[p]], cs[#[trigger] b[q]]),
        ensures
            a == b,
        decreases a.len(),
    {
        if a.len() == 0 {
            if b.len() > 0 {
                assert(b.contains(b[0]));
                assert(a.contains(b[0]));
            }
            assert(a =~= b);
        } else {
            assert(a.contains(a[0]));
            assert(b.contains(a[0]));
            assert(b.contains(b[0]));
            assert(a.contains(b[0]));
            let i = b.index_of(a[0]);
            let j = a.index_of(b[0]);
            if i > 0 {
                assert(self.ahead(cs[b[0]], cs[b[i]]));
                self.ahead_asymmetric(cs[b[0]], cs[b[i]]);
                if j > 0 {
                    assert(self.ahead(cs[a[0]], cs[a[j]]));
                }
            }
            assert(a[0] == b[0]);
            let x = a.drop_first();
            let y = b.drop_first();
            assert forall|k: int| x.contains(k) == y.contains(k) by {
                if x.contains(k) {
                    let p = x.index_of(k);
                    assert(a[p + 1] == k);
                    assert(self.ahead(cs[a[0]], cs[a[p + 1]]));
                    self.ahead_asymmetric(cs[a[0]], cs[a[p + 1]]);
                    assert(a.contains(k));
                    let q = b.index_of(k);
                    assert(q != 0);
                    assert(y[q - 1] == k);
                }
                if y.contains(k) {
                    let p = y.index_of(k);
                    assert(b[p + 1] == k);
                    assert(self.ahead(cs[b[0]], cs[b[p + 1]]));
                    self.ahead_asymmetric(cs[b[0]], cs[b[p + 1]]);
                    assert(b.contains(k));
                    let q = a.index_of(k);
                    assert(q != 0);
                    assert(x[q - 1] == k);
                }
            }
            assert forall|p: int, q: int| 0 <= p < q < x.len() implies self.ahead(
                cs[#[trigger] x[p]],
                cs[#[trigger] x[q]],
            ) by {
                assert(self.ahead(cs[a[p + 1]], cs[a[q + 1]]));
            }
            assert forall|p: int, q: int| 0 <= p < q < y.len() implies self.ahead(
                cs[#[trigger] y[p]],
                cs[#[trigger] y[q]],
            ) by {
                assert(self.ahead(cs[b[p + 1]], cs[b[q + 1]]));
            }
            self.ordered_unique(cs, x, y);
            assert(a =~= seq![a[0]] + x);
            assert(b =~= seq![b[0]] + y);
        }
    }

    /// No two legs share a failure domain at the rung.
    pub proof fn picks_in_distinct_domains(
        self,
        cs: Seq<CandidateView>,
        picks: Seq<int>,
        p: int,
        q: int,
    )
        requires
            self.ranks(cs, picks),
            0 <= p < q < picks.len(),
        ensures
            self.domain_of(cs[picks[p]]) != self.domain_of(cs[picks[q]]),
    {
        assert(picks.contains(picks[p]));
        assert(picks.contains(picks[q]));
        assert(self.ahead(cs[picks[p]], cs[picks[q]]));
        if self.domain_of(cs[picks[p]]) == self.domain_of(cs[picks[q]]) {
            self.leader_unique(cs, picks[p], picks[q]);
            self.ahead_asymmetric(cs[picks[p]], cs[picks[q]]);
        }
    }

    /// The pick of a domain has room, and no node of that domain with room is
    /// emptier.
    pub proof fn pick_is_emptiest_of_domain(
        self,
        cs: Seq<CandidateView>,
        picks: Seq<int>,
        p: int,
        j: int,
    )
        requires
            self.ranks(cs, picks),
            0 <= p < picks.len(),
            0 <= j < cs.len(),
            self.fits(cs[j]),
            self.domain_of(cs[j]) == self.domain_of(cs[picks[p]]),
        ensures
            self.fits(cs[picks[p]]),
            cs[j].free_ratio() <= cs[picks[p]].free_ratio(),
            cs[j].free_ratio() == cs[picks[p]].free_ratio() ==> !text::lt(
                cs[j].name,
                cs[picks[p]].name,
            ),
    {
        assert(picks.contains(picks[p]));
        assert(self.leads(cs, picks[p]));
        if j != picks[p] {
            if cs[picks[p]].better(cs[j]) {
                cs[picks[p]].better_asymmetric(cs[j]);
            }
        } else {
            text::lt_irreflexive(cs[j].name);
        }
    }

    /// A candidate taken earlier is at least as empty as one taken later.
    pub proof fn picks_emptiest_first(
        self,
        cs: Seq<CandidateView>,
        picks: Seq<int>,
        p: int,
        q: int,
    )
        requires
            self.ranks(cs, picks),
            0 <= p < q < picks.len(),
        ensures
            cs[picks[p]].free_ratio() >= cs[picks[q]].free_ratio(),
            cs[picks[p]].free_ratio() == cs[picks[q]].free_ratio() ==> !text::lt(
                cs[picks[q]].name,
                cs[picks[p]].name,
            ),
    {
        assert(self.ahead(cs[picks[p]], cs[picks[q]]));
        if cs[picks[p]].better(cs[picks[q]]) {
            cs[picks[p]].better_asymmetric(cs[picks[q]]);
        }
    }

    /// How the candidates to take change when one more candidate is looked at.
    proof fn leader_extends(self, cs: Seq<CandidateView>, n: int, i: int)
        requires
            0 <= n < cs.len(),
            self.leads(cs.take(n), i),
        ensures
            !self.fits(cs[n]) || self.domain_of(cs[n]) != self.domain_of(cs[i])
                || !cs[n].better(cs[i]) ==> self.leads(cs.take(n + 1), i),
            self.fits(cs[n]) && self.domain_of(cs[n]) == self.domain_of(cs[i]) && cs[n].better(
                cs[i],
            ) ==> self.leads(cs.take(n + 1), n),
    {
        let old = cs.take(n);
        let new = cs.take(n + 1);
        assert(forall|j: int| 0 <= j < n ==> #[trigger] new[j] == old[j]);
        if self.fits(cs[n]) && self.domain_of(cs[n]) == self.domain_of(cs[i]) && cs[n].better(
            cs[i],
        ) {
            assert forall|j: int|
                0 <= j < new.len() && self.fits(#[trigger] new[j]) && self.domain_of(new[j])
                    == self.domain_of(new[n]) && j != n implies new[n].better(new[j]) || (n < j
                && !new[j].better(new[n])) by {
                assert(new[j] == old[j]);
                if j != i {
                    if old[i].better(old[j]) {
                        new[n].better_transitive(old[i], old[j]);
                    } else {
                        new[n].better_than_no_better(old[i], old[j]);
                    }
                }
            }
        } else {
            assert forall|j: int|
                0 <= j < new.len() && self.fits(#[trigger] new[j]) && self.domain_of(new[j])
                    == self.domain_of(new[i]) && j != i implies new[i].better(new[j]) || (i < j
                && !new[j].better(new[i])) by {
                if j < n {
                    assert(new[j] == old[j]);
                }
            }
        }
    }
}

impl Question {
    /// Putting a candidate in before the first that it is better than, where it
    /// is of a later domain than all of them, keeps them in the order in which
    /// they are taken.
    proof fn insert_keeps_order(self, cs: Seq<CandidateView>, old: Seq<usize>, at: int, i: usize)
        requires
            0 <= at <= old.len(),
            forall|p: int, q: int|
                0 <= p < q < old.len() ==> self.ahead(
                    cs[(#[trigger] old[p]) as int],
                    cs[(#[trigger] old[q]) as int],
                ),
            forall|j: int|
                0 <= j < old.len() ==> text::lt(
                    self.domain_of(cs[(#[trigger] old[j]) as int]),
                    self.domain_of(cs[i as int]),
                ),
            forall|j: int|
                0 <= j < at ==> !cs[i as int].better(cs[(#[trigger] old[j]) as int]),
            at < old.len() ==> cs[i as int].better(cs[old[at] as int]),
        ensures
            forall|p: int, q: int|
                0 <= p < q < old.len() + 1 ==> self.ahead(
                    cs[(#[trigger] old.insert(at, i)[p]) as int],
                    cs[(#[trigger] old.insert(at, i)[q]) as int],
                ),
    {
        let new = old.insert(at, i);
        let c = cs[i as int];
        assert forall|p: int, q: int| 0 <= p < q < old.len() + 1 implies self.ahead(
            cs[(#[trigger] new[p]) as int],
            cs[(#[trigger] new[q]) as int],
        ) by {
            let a = if p < at { p } else { p - 1 };
            let b = if q < at { q } else { q - 1 };
            if p == at {
                assert(new[q] == old[b]);
                let first = cs[old[at] as int];
                let other = cs[old[b] as int];
                if b > at {
                    assert(self.ahead(first, other));
                    if first.better(other) {
                        c.better_transitive(first, other);
                    } else {
                        c.better_than_no_better(first, other);
                    }
                }
            } else if q == at {
                assert(new[p] == old[a]);
            } else {
                assert(new[p] == old[a] && new[q] == old[b]);
            }
        }
    }
}

impl Question {
    proof fn ahead_transitive(self, a: CandidateView, b: CandidateView, c: CandidateView)
        requires
            self.ahead(a, b),
            self.ahead(b, c),
        ensures
            self.ahead(a, c),
    {
        if a.better(b) && b.better(c) {
            a.better_transitive(b, c);
        } else if a.better(b) {
            a.better_than_no_better(b, c);
        } else if b.better(c) {
            a.better_total(b);
        } else {
            a.better_total(b);
            b.better_total(c);
            text::lt_transitive(self.domain_of(a), self.domain_of(b), self.domain_of(c));
        }
    }

    proof fn ahead_total(self, a: CandidateView, b: CandidateView)
        requires
            self.domain_of(a) != self.domain_of(b),
        ensures
            self.ahead(a, b) || self.ahead(b, a),
    {
        text::lt_total(self.domain_of(a), self.domain_of(b));
    }

    /// The candidates to take among the first `n`, in order.
    proof fn ranking_of_first(self, cs: Seq<CandidateView>, n: int) -> (picks: Seq<int>)
        requires
            0 <= n <= cs.len(),
        ensures
            forall|i: int| #[trigger] picks.contains(i) <==> i < n && self.leads(cs, i),
            forall|p: int, q: int|
                0 <= p < q < picks.len() ==> self.ahead(
                    cs[#[trigger] picks[p]],
                    cs[#[trigger] picks[q]],
                ),
        decreases n,
    {
        if n == 0 {
            Seq::empty()
        } else {
            let old = self.ranking_of_first(cs, n - 1);
            let m = n - 1;
            if self.leads(cs, m) {
                let at = self.rank_among(cs, old, m, old.len() as int);
                let new = old.insert(at, m);
                assert forall|i: int| #[trigger] new.contains(i) <==> i < n && self.leads(cs, i) by {
                    if old.contains(i) {
                        let p = old.index_of(i);
                        assert(new[if p < at { p } else { p + 1 }] == i);
                    }
                    assert(new[at] == m);
                    if new.contains(i) && i != m {
                        let p = new.index_of(i);
                        assert(old[if p < at { p } else { p - 1 }] == i);
                        assert(old.contains(i));
                    }
                }
                assert forall|p: int, q: int| 0 <= p < q < new.len() implies self.ahead(
                    cs[#[trigger] new[p]],
                    cs[#[trigger] new[q]],
                ) by {
                    let a = if p < at { p } else { p - 1 };
                    let b = if q < at { q } else { q - 1 };
                    if p == at {
                        assert(new[q] == old[b]);
                    } else if q == at {
                        assert(new[p] == old[a]);
                    } else {
                        assert(new[p] == old[a] && new[q] == old[b]);
                    }
                }
                new
            } else {
                assert forall|i: int| #[trigger] old.contains(i) <==> i < n && self.leads(cs, i) by {
                }
                old
            }
        }
    }

    /// Where a candidate that leads its domain belongs among the first `k` of
    /// others in order.
    proof fn rank_among(self, cs: Seq<CandidateView>, old: Seq<int>, m: int, k: int) -> (at: int)
        requires
            self.leads(cs, m),
            0 <= k <= old.len(),
            forall|i: int| #[trigger] old.contains(i) ==> i < m && self.leads(cs, i),
            forall|p: int, q: int|
                0 <= p < q < old.len() ==> self.ahead(
                    cs[#[trigger] old[p]],
                    cs[#[trigger] old[q]],
                ),
            forall|p: int| k <= p < old.len() ==> self.ahead(cs[m], cs[#[trigger] old[p]]),
        ensures
            0 <= at <= k,
            forall|p: int| 0 <= p < at ==> self.ahead(cs[#[trigger] old[p]], cs[m]),
            forall|p: int| at <= p < old.len() ==> self.ahead(cs[m], cs[#[trigger] old[p]]),
        decreases k,
    {
        if k == 0 {
            0
        } else {
            let e = old[k - 1];
            assert(old.contains(e));
            if self.domain_of(cs[e]) == self.domain_of(cs[m]) {
                self.leader_unique(cs, e, m);
            }
            self.ahead_total(cs[e], cs[m]);
            if self.ahead(cs[m], cs[e]) {
                self.rank_among(cs, old, m, k - 1)
            } else {
                assert forall|p: int| 0 <= p < k implies self.ahead(
                    cs[#[trigger] old[p]],
                    cs[m],
                ) by {
                    if p < k - 1 {
                        assert(self.ahead(cs[old[p]], cs[old[k - 1]]));
                        self.ahead_transitive(cs[old[p]], cs[e], cs[m]);
                    }
                }
                k
            }
        }
    }

    /// There always is an order in which the candidates are taken.
    pub proof fn ranking_exists(self, cs: Seq<CandidateView>)
        ensures
            self.ranks(cs, self.ranking(cs)),
    {
        let picks = self.ranking_of_first(cs, cs.len() as int);
        assert(self.ranks(cs, picks)) by {
            assert forall|i: int| #[trigger] picks.contains(i) <==> self.leads(cs, i) by {
            }
        }
    }

    /// Of every domain that has a candidate with room among the first `n`, one
    /// of them is to be taken.
    proof fn leader_exists(self, cs: Seq<CandidateView>, n: int, j: int) -> (i: int)
        requires
            0 <= j < n <= cs.len(),
            self.fits(cs[j]),
        ensures
            self.leads(cs.take(n), i),
            self.domain_of(cs[i]) == self.domain_of(cs[j]),
        decreases n,
    {
        let m = n - 1;
        let d = self.domain_of(cs[j]);
        if exists|k: int|
            0 <= k < m && self.fits(#[trigger] cs[k]) && self.domain_of(cs[k]) == d {
            let k = choose|k: int|
                0 <= k < m && self.fits(#[trigger] cs[k]) && self.domain_of(cs[k]) == d;
            let i = self.leader_exists(cs, m, k);
            self.leader_extends(cs, m, i);
            if self.fits(cs[m]) && self.domain_of(cs[m]) == d && cs[m].better(cs[i]) {
                m
            } else {
                i
            }
        } else {
            let first = cs.take(n);
            assert forall|k: int|
                0 <= k < first.len() && self.fits(#[trigger] first[k]) && self.domain_of(first[k])
                    == d && k != m implies false by {
                assert(first[k] == cs[k]);
            }
            m
        }
    }

    /// As many candidates are taken as there are domains with room.
    pub proof fn one_pick_per_domain(self, cs: Seq<CandidateView>, picks: Seq<int>)
        requires
            self.ranks(cs, picks),
        ensures
            picks.len() == self.domains(cs).len(),
    {
        let ds = Seq::new(picks.len(), |k: int| self.domain_of(cs[picks[k]]));
        assert forall|a: int, b: int| 0 <= a < ds.len() && 0 <= b < ds.len() && a != b implies ds[a]
            != ds[b] by {
            if a < b {
                self.picks_in_distinct_domains(cs, picks, a, b);
            } else {
                self.picks_in_distinct_domains(cs, picks, b, a);
            }
        }
        assert forall|d: Seq<char>| ds.to_set().contains(d) == self.domains(cs).contains(d) by {
            if ds.contains(d) {
                let k = ds.index_of(d);
                assert(picks.contains(picks[k]));
                assert(self.fits(cs[picks[k]]));
            }
            if self.domains(cs).contains(d) {
                let j = choose|j: int|
                    0 <= j < cs.len() && self.fits(#[trigger] cs[j]) && self.domain_of(cs[j]) == d;
                let i = self.leader_exists(cs, cs.len() as int, j);
                assert(cs.take(cs.len() as int) =~= cs);
                assert(picks.contains(i));
                let k = picks.index_of(i);
                assert(ds[k] == d);
            }
        }
        assert(ds.to_set() =~= self.domains(cs));
        ds.unique_seq_to_set();
    }

    /// Each leg is on a candidate with room, the one to take of its domain.
    pub proof fn legs_have_room(
        self,
        cs: Seq<CandidateView>,
        legs: Seq<Seq<char>>,
        a: int,
    )
        requires
            self.answer(cs) == Ok::<Seq<Seq<char>>, Seq<char>>(legs),
            0 <= a < legs.len(),
        ensures
            legs.len() == self.replicas,
            self.leads(cs, self.ranking(cs)[a]),
            cs[self.ranking(cs)[a]].name == legs[a],
    {
        self.ranking_exists(cs);
        let picks = self.ranking(cs);
        self.one_pick_per_domain(cs, picks);
        assert(picks.contains(picks[a]));
    }

    /// What a placement promises: each leg is on a candidate with room, and no
    /// two legs are in one failure domain.
    pub proof fn legs_are_spread(
        self,
        cs: Seq<CandidateView>,
        legs: Seq<Seq<char>>,
        a: int,
        b: int,
    )
        requires
            self.answer(cs) == Ok::<Seq<Seq<char>>, Seq<char>>(legs),
            0 <= a < b < legs.len(),
        ensures
            legs.len() == self.replicas,
            self.replicas <= self.ranking(cs).len(),
            ({
                let i = self.ranking(cs)[a];
                let j = self.ranking(cs)[b];
                &&& self.leads(cs, i) && cs[i].name == legs[a]
                &&& self.leads(cs, j) && cs[j].name == legs[b]
                &&& self.fits(cs[i]) && self.fits(cs[j])
                &&& self.domain_of(cs[i]) != self.domain_of(cs[j])
            }),
    {
        self.ranking_exists(cs);
        let picks = self.ranking(cs);
        self.one_pick_per_domain(cs, picks);
        assert(picks.contains(picks[a]));
        assert(picks.contains(picks[b]));
        self.picks_in_distinct_domains(cs, picks, a, b);
    }
}

/// Whether the double nearest to every size of the node is that size itself.
pub open spec fn exact_sizes(c: CandidateView) -> bool {
    c.free_bytes < 0x20_0000_0000_0000 && c.total_bytes < 0x20_0000_0000_0000
}

/// Whether a node has nothing free that it knows of.
pub open spec fn nothing_free(c: CandidateView) -> bool {
    c.free_bytes == 0 || c.total_bytes == 0
}

/// Whether a larger share of `a` is free than of `b`, by more than a double
/// can miss.
pub open spec fn emptier(a: CandidateView, b: CandidateView) -> bool {
    let (more, less) = (a.free_bytes * b.total_bytes, b.free_bytes * a.total_bytes);
    &&& !nothing_free(a)
    &&& {
        ||| nothing_free(b)
        ||| exact_sizes(a) && exact_sizes(b) && 0x10_0000_0000_0001 * less < 0x10_0000_0000_0000
            * more
        ||| 0x4_0000_0000_0001 * less < 0x4_0000_0000_0000 * more
    }
}

/// Whether the same share of the two is free.
pub open spec fn as_empty(a: CandidateView, b: CandidateView) -> bool {
    ||| nothing_free(a) && nothing_free(b)
    ||| {
        &&& a.total_bytes > 0
        &&& b.total_bytes > 0
        &&& {
            ||| a.free_bytes == a.total_bytes && b.free_bytes == b.total_bytes
            ||| exact_sizes(a) && exact_sizes(b) && a.free_bytes * b.total_bytes == b.free_bytes
                * a.total_bytes
        }
    }
}

impl CandidateView {
    /// Nodes are compared by the share of them that is free, whatever their
    /// capacity: the node with the larger share is better, and of two nodes
    /// with one share the one with the lower name. A node that reports no
    /// capacity counts as full.
    pub proof fn share_decides(self, other: Self)
        ensures
            emptier(self, other) ==> self.better(other) && !other.better(self),
            as_empty(self, other) ==> self.better(other) == text::lt(self.name, other.name),
            as_empty(self, other) ==> other.better(self) == text::lt(other.name, self.name),
    {
        let (a, b) = (self.free_bytes, self.total_bytes);
        let (c, d) = (other.free_bytes, other.total_bytes);
        if a == 0 {
            double::some_is_more_than_none(1, 1, b);
        }
        if c == 0 {
            double::some_is_more_than_none(1, 1, d);
        }
        if emptier(self, other) {
            double::some_is_more_than_none(a, b, d);
            if !nothing_free(other) {
                if exact_sizes(self) && exact_sizes(other) && 0x10_0000_0000_0001 * (c * b)
                    < 0x10_0000_0000_0000 * (a * d) {
                    double::ratio_bits_tell_apart(c, d, a, b);
                } else {
                    double::ratio_bits_tell_large_apart(c, d, a, b);
                }
            }
        }
        if as_empty(self, other) && !(nothing_free(self) && nothing_free(other)) {
            if a == b && c == d {
                double::wholes_are_alike(a, c);
            } else {
                double::ratio_bits_grow(a, b, c, d);
                double::ratio_bits_grow(c, d, a, b);
            }
        }
    }

    /// Two nodes that are wholly free rank alike whatever their capacity, and
    /// so do two nodes of which one is a scaled copy of the other.
    pub proof fn capacity_alone_decides_nothing(self, other: Self, k: nat)
        requires
            self.total_bytes > 0,
            other.total_bytes > 0,
            (self.free_bytes == self.total_bytes && other.free_bytes == other.total_bytes) || (
            exact_sizes(self) && exact_sizes(other) && self.free_bytes == k * other.free_bytes
                && self.total_bytes == k * other.total_bytes),
        ensures
            self.free_ratio() == other.free_ratio(),
    {
        let (a, b) = (self.free_bytes, self.total_bytes);
        let (c, d) = (other.free_bytes, other.total_bytes);
        if a == b && c == d {
            double::wholes_are_alike(a, c);
        } else {
            let (x, y) = (c as int, d as int);
            assert((k * x) * y == x * (k * y)) by (nonlinear_arith);
            double::ratio_bits_grow(a, b, c, d);
            double::ratio_bits_grow(c, d, a, b);
        }
    }
}

impl Question {
    /// The emptier node is taken first. Where the candidate `i` is given a leg,
    /// it has room, and no candidate of its domain that has room has a larger
    /// share free, or the same share and a lower name. A candidate of another
    /// domain that is before it by that order has its domain served by an
    /// earlier leg.
    pub proof fn emptiest_is_taken_first(
        self,
        cs: Seq<CandidateView>,
        legs: Seq<Seq<char>>,
        k: int,
        i: int,
        j: int,
    )
        requires
            self.answer(cs) == Ok::<Seq<Seq<char>>, Seq<char>>(legs),
            forall|x: int, y: int|
                0 <= x < y < cs.len() ==> (#[trigger] cs[x]).name != (#[trigger] cs[y]).name,
            0 <= k < legs.len(),
            0 <= i < cs.len(),
            cs[i].name == legs[k],
            0 <= j < cs.len(),
            cs[j].free_bytes >= self.size_bytes,
            emptier(cs[j], cs[i]) || as_empty(cs[j], cs[i]) && text::lt(cs[j].name, cs[i].name),
        ensures
            cs[i].free_bytes >= self.size_bytes,
            domain(cs[j].labels, self.rungs, self.rung) != domain(
                cs[i].labels,
                self.rungs,
                self.rung,
            ),
            exists|p: int, h: int|
                0 <= p < k && 0 <= h < cs.len() && (#[trigger] cs[h]).name == #[trigger] legs[p]
                    && domain(cs[h].labels, self.rungs, self.rung) == domain(
                    cs[j].labels,
                    self.rungs,
                    self.rung,
                ),
    {
        self.legs_have_room(cs, legs, k);
        self.ranking_exists(cs);
        let picks = self.ranking(cs);
        self.one_pick_per_domain(cs, picks);
        let t = picks[k];
        if t < i {
            assert(cs[t].name != cs[i].name);
        } else if i < t {
            assert(cs[i].name != cs[t].name);
        }
        cs[j].share_decides(cs[i]);
        assert(cs[j].better(cs[i]));
        cs[j].better_asymmetric(cs[i]);
        assert(cs.take(cs.len() as int) =~= cs);
        let h = self.leader_exists(cs, cs.len() as int, j);
        assert(self.leads(cs, h));
        assert(picks.contains(h));
        let p = picks.index_of(h);
        if h != j {
            assert(!cs[j].better(cs[h])) by {
                if cs[h].better(cs[j]) {
                    cs[h].better_asymmetric(cs[j]);
                }
            }
            cs[j].better_total(cs[h]);
            if cs[h].better(cs[j]) {
                cs[h].better_transitive(cs[j], cs[i]);
            }
        }
        assert(cs[h].better(cs[i]));
        if p > k {
            self.picks_emptiest_first(cs, picks, k, p);
        }
        self.legs_have_room(cs, legs, p);
        assert(cs[h].name == legs[p]);
    }

    /// A placement has one leg for each replica asked for. Each is on a
    /// candidate with room, and no two are in one failure domain.
    pub proof fn legs_are_as_asked(
        self,
        cs: Seq<CandidateView>,
        legs: Seq<Seq<char>>,
        a: int,
        b: int,
        i: int,
        j: int,
    )
        requires
            self.answer(cs) == Ok::<Seq<Seq<char>>, Seq<char>>(legs),
            forall|x: int, y: int|
                0 <= x < y < cs.len() ==> (#[trigger] cs[x]).name != (#[trigger] cs[y]).name,
            0 <= a < b < legs.len(),
            0 <= i < cs.len(),
            cs[i].name == legs[a],
            0 <= j < cs.len(),
            cs[j].name == legs[b],
        ensures
            legs.len() == self.replicas,
            cs[i].free_bytes >= self.size_bytes,
            cs[j].free_bytes >= self.size_bytes,
            domain(cs[i].labels, self.rungs, self.rung) != domain(
                cs[j].labels,
                self.rungs,
                self.rung,
            ),
    {
        self.legs_are_spread(cs, legs, a, b);
        let (s, t) = (self.ranking(cs)[a], self.ranking(cs)[b]);
        assert(s == i) by {
            if s < i {
                assert(cs[s].name != cs[i].name);
            } else if i < s {
                assert(cs[i].name != cs[s].name);
            }
        }
        assert(t == j) by {
            if t < j {
                assert(cs[t].name != cs[j].name);
            } else if j < t {
                assert(cs[j].name != cs[t].name);
            }
        }
    }

    /// A placement fails only where it must: as soon as candidates with room
    /// in as many different domains as replicas are asked for can be named, and
    /// there is a candidate with room at all, there is one.
    pub proof fn enough_domains_are_enough(
        self,
        cs: Seq<CandidateView>,
        found: Seq<int>,
    )
        requires
            found.len() >= self.replicas,
            found.len() > 0,
            forall|p: int|
                0 <= p < found.len() ==> 0 <= #[trigger] found[p] < cs.len()
                    && cs[found[p]].free_bytes >= self.size_bytes,
            forall|p: int, q: int|
                0 <= p < q < found.len() ==> domain(
                    cs[#[trigger] found[p]].labels,
                    self.rungs,
                    self.rung,
                ) != domain(cs[#[trigger] found[q]].labels, self.rungs, self.rung),
        ensures
            self.answer(cs) is Ok,
    {
        let ds = Seq::new(found.len(), |p: int| self.domain_of(cs[found[p]]));
        assert(self.fits(cs[found[0]]));
        assert(ds.no_duplicates());
        ds.unique_seq_to_set();
        assert(ds.to_set().subset_of(self.domains(cs))) by {
            assert forall|d: Seq<char>| ds.to_set().contains(d) implies self.domains(
                cs,
            ).contains(d) by {
                let p = choose|p: int| 0 <= p < ds.len() && ds[p] == d;
                assert(self.fits(cs[found[p]]));
            }
        }
        let all = Seq::new(cs.len(), |p: int| self.domain_of(cs[p]));
        assert(self.domains(cs).subset_of(all.to_set())) by {
            assert forall|d: Seq<char>| self.domains(cs).contains(d) implies all.to_set().contains(
                d,
            ) by {
                let p = choose|p: int|
                    0 <= p < cs.len() && self.fits(#[trigger] cs[p]) && self.domain_of(cs[p]) == d;
                assert(all[p] == d);
            }
        }
        vstd::seq_lib::seq_to_set_is_finite(all);
        vstd::set_lib::lemma_len_subset(self.domains(cs), all.to_set());
        vstd::set_lib::lemma_len_subset(ds.to_set(), self.domains(cs));
    }
}

impl Question {
    /// Why there is no placement: no candidate has room, or those that have are
    /// in fewer failure domains than replicas are asked for, which are told.
    pub proof fn placement_is_refused_with_the_reason(self, cs: Seq<CandidateView>)
        ensures
            ({
                let room = |c: CandidateView| c.free_bytes >= self.size_bytes;
                let found = Set::new(
                    |d: Seq<char>|
                        exists|i: int|
                            0 <= i < cs.len() && (#[trigger] cs[i]).free_bytes >= self.size_bytes
                                && domain(cs[i].labels, self.rungs, self.rung) == d,
                );
                if forall|i: int| 0 <= i < cs.len() ==> !room(#[trigger] cs[i]) {
                    self.answer(cs) == Err::<Seq<Seq<char>>, Seq<char>>(
                        "no node with "@ + text::dec(self.size_bytes as nat) + " bytes free ("@
                            + text::dec(cs.len()) + " candidates)"@,
                    )
                } else if found.len() < self.replicas {
                    self.answer(cs) == Err::<Seq<Seq<char>>, Seq<char>>(
                        "need "@ + text::dec(self.replicas as nat) + " distinct domains at rung "@
                            + text::quoted_text(self.rung) + ", found "@ + text::dec(found.len())
                            + ": ["@ + text::joined(names::sorted(found), ", "@) + "]"@,
                    )
                } else {
                    self.answer(cs) is Ok
                }
            }),
    {
        let room = |c: CandidateView| c.free_bytes >= self.size_bytes;
        let found = Set::new(
            |d: Seq<char>|
                exists|i: int|
                    0 <= i < cs.len() && (#[trigger] cs[i]).free_bytes >= self.size_bytes && domain(
                        cs[i].labels,
                        self.rungs,
                        self.rung,
                    ) == d,
        );
        assert(forall|i: int|
            0 <= i < cs.len() ==> (self.fits(#[trigger] cs[i]) <==> room(cs[i])));
        assert forall|d: Seq<char>| found.contains(d) == self.domains(cs).contains(d) by {
            if found.contains(d) {
                let i = choose|i: int|
                    0 <= i < cs.len() && (#[trigger] cs[i]).free_bytes >= self.size_bytes && domain(
                        cs[i].labels,
                        self.rungs,
                        self.rung,
                    ) == d;
                assert(self.fits(cs[i]) && self.domain_of(cs[i]) == d);
            }
            if self.domains(cs).contains(d) {
                let i = choose|i: int|
                    0 <= i < cs.len() && self.fits(#[trigger] cs[i]) && self.domain_of(cs[i]) == d;
                assert(cs[i].free_bytes >= self.size_bytes);
            }
        }
        assert(found =~= self.domains(cs));
    }
}

/// Which labels make a failure domain: the values that the node has for the
/// rungs from the top down to the one asked for, and no others.
pub proof fn chain_reads_the_rungs_above(
    labels: Map<Seq<char>, Seq<char>>,
    rungs: Seq<Seq<char>>,
    rung: Seq<char>,
    p: int,
)
    requires
        0 <= p <= rungs.len(),
        forall|i: int| 0 <= i < p ==> #[trigger] rungs[i] != rung,
        p < rungs.len() ==> rungs[p] == rung,
    ensures
        label_chain(labels, rungs, rung) == rungs.take(
            if p < rungs.len() {
                p + 1
            } else {
                p
            },
        ).filter(|r: Seq<char>| labels.contains_key(r)).map_values(|r: Seq<char>| labels[r]),
    decreases rungs.len(),
{
    let has = |r: Seq<char>| labels.contains_key(r);
    let get = |r: Seq<char>| labels[r];
    reveal(Seq::filter);
    if rungs.len() == 0 {
        assert(rungs.take(p) =~= Seq::empty());
        assert(label_chain(labels, rungs, rung) =~= rungs.take(p).filter(has).map_values(get));
    } else {
        let n = if p < rungs.len() {
            p + 1
        } else {
            p
        };
        let top = seq![rungs[0]];
        let rest = rungs.drop_first();
        assert(top.drop_last() =~= Seq::empty());
        assert(top.drop_last().filter(has) =~= Seq::empty());
        if p == 0 {
            assert(rungs.take(n) =~= top);
            assert(label_chain(labels, rungs, rung) =~= top.filter(has).map_values(get));
        } else {
            assert forall|i: int| 0 <= i < p - 1 implies #[trigger] rest[i] != rung by {
                assert(rungs[i + 1] != rung);
            }
            chain_reads_the_rungs_above(labels, rest, rung, p - 1);
            assert(rungs.take(n) =~= top + rest.take(n - 1));
            Seq::filter_distributes_over_add(top, rest.take(n - 1), has);
            assert(label_chain(labels, rungs, rung) =~= rungs.take(n).filter(has).map_values(get));
        }
    }
}

/// The failure domain of a node that has labels down to the rung asked for is
/// their values, from the top down, with a slash between each two.
pub proof fn domain_is_the_chain_of_labels(
    labels: Map<Seq<char>, Seq<char>>,
    rungs: Seq<Seq<char>>,
    rung: Seq<char>,
    p: int,
)
    requires
        0 <= p <= rungs.len(),
        forall|i: int| 0 <= i < p ==> #[trigger] rungs[i] != rung,
        p < rungs.len() ==> rungs[p] == rung,
    ensures
        ({
            let n = if p < rungs.len() {
                p + 1
            } else {
                p
            };
            let values = rungs.take(n).filter(|r: Seq<char>| labels.contains_key(r)).map_values(
                |r: Seq<char>| labels[r],
            );
            values.len() > 0 ==> domain(labels, rungs, rung) == text::joined(values, "/"@)
        }),
{
    chain_reads_the_rungs_above(labels, rungs, rung, p);
}

/// A node that has none of the labels down to the rung asked for is a domain
/// of its own, by its node label.
pub proof fn unlabelled_node_is_its_own_domain(
    labels: Map<Seq<char>, Seq<char>>,
    rungs: Seq<Seq<char>>,
    rung: Seq<char>,
)
    requires
        forall|i: int| 0 <= i < rungs.len() ==> !labels.contains_key(#[trigger] rungs[i]),
    ensures
        labels.contains_key("node"@) ==> domain(labels, rungs, rung) == labels["node"@],
        !labels.contains_key("node"@) ==> domain(labels, rungs, rung) == "?"@,
{
    assert(label_chain(labels, rungs, rung).len() == 0) by {
        empty_chain(labels, rungs, rung);
    }
}

proof fn empty_chain(
    labels: Map<Seq<char>, Seq<char>>,
    rungs: Seq<Seq<char>>,
    rung: Seq<char>,
)
    requires
        forall|i: int| 0 <= i < rungs.len() ==> !labels.contains_key(#[trigger] rungs[i]),
    ensures
        label_chain(labels, rungs, rung).len() == 0,
    decreases rungs.len(),
{
    if rungs.len() > 0 {
        assert(!labels.contains_key(rungs[0]));
        assert forall|i: int| 0 <= i < rungs.drop_first().len() implies !labels.contains_key(
            #[trigger] rungs.drop_first()[i],
        ) by {
            assert(!labels.contains_key(rungs[i + 1]));
        }
        empty_chain(labels, rungs.drop_first(), rung);
    }
}

/// Two nodes with the same labels down to the rung asked for, at least one of
/// them, share the failure domain, whatever else they are labelled.
pub proof fn lower_rungs_do_not_matter(
    a: Map<Seq<char>, Seq<char>>,
    b: Map<Seq<char>, Seq<char>>,
    rungs: Seq<Seq<char>>,
    rung: Seq<char>,
    p: int,
)
    requires
        0 <= p < rungs.len(),
        rungs[p] == rung,
        forall|i: int|
            0 <= i <= p ==> a.contains_key(#[trigger] rungs[i]) == b.contains_key(rungs[i])
                && a[rungs[i]] == b[rungs[i]],
    ensures
        label_chain(a, rungs, rung) == label_chain(b, rungs, rung),
        (exists|i: int|
            0 <= i <= p && a.contains_key(#[trigger] rungs[i]) && forall|j: int|
                0 <= j < i ==> #[trigger] rungs[j] != rung) ==> domain(a, rungs, rung) == domain(
            b,
            rungs,
            rung,
        ),
    decreases rungs.len(),
{
    assert(a.contains_key(rungs[0]) == b.contains_key(rungs[0]) && a[rungs[0]] == b[rungs[0]]);
    if rungs[0] != rung {
        let rest = rungs.drop_first();
        assert forall|i: int| 0 <= i <= p - 1 implies a.contains_key(#[trigger] rest[i])
            == b.contains_key(rest[i]) && a[rest[i]] == b[rest[i]] by {
            assert(a.contains_key(rungs[i + 1]) == b.contains_key(rungs[i + 1]));
        }
        lower_rungs_do_not_matter(a, b, rest, rung, p - 1);
    }
    if exists|i: int|
        0 <= i <= p && a.contains_key(#[trigger] rungs[i]) && forall|j: int|
            0 <= j < i ==> #[trigger] rungs[j] != rung {
        let i = choose|i: int|
            0 <= i <= p && a.contains_key(#[trigger] rungs[i]) && forall|j: int|
                0 <= j < i ==> #[trigger] rungs[j] != rung;
        chain_holds(a, rungs, rung, i);
    }
}

proof fn chain_holds(
    labels: Map<Seq<char>, Seq<char>>,
    rungs: Seq<Seq<char>>,
    rung: Seq<char>,
    i: int,
)
    requires
        0 <= i < rungs.len(),
        labels.contains_key(rungs[i]),
        forall|j: int| 0 <= j < i ==> #[trigger] rungs[j] != rung,
    ensures
        label_chain(labels, rungs, rung).len() > 0,
    decreases rungs.len(),
{
    if i > 0 {
        let rest = rungs.drop_first();
        assert(rungs[0] != rung);
        assert forall|j: int| 0 <= j < i - 1 implies #[trigger] rest[j] != rung by {
            assert(rungs[j + 1] != rung);
        }
        chain_holds(labels, rest, rung, i - 1);
    }
}

/// The best candidate of each domain that has one with room.
fn best_of_domains(
    candidates: &[Candidate],
    rungs: &[String],
    rung: &str,
    size_bytes: u64,
    Ghost(question): Ghost<Question>,
) -> (best: NameMap<usize>)
    requires
        question.rungs == rungs.deep_view(),
        question.rung == rung@,
        question.size_bytes == size_bytes,
    ensures
        best@.dom() == question.domains(candidates.deep_view()),
        forall|d: Seq<char>| #[trigger]
            best@.contains_key(d) ==> question.leads(candidates.deep_view(), best@[d] as int)
                && question.domain_of(candidates.deep_view()[best@[d] as int]) == d,
{
    let ghost cs = candidates.deep_view();
    let mut best: NameMap<usize> = NameMap::new();
    let mut n: usize = 0;
    assert(best@.dom() =~= question.domains(cs.take(0)));
    while n < candidates.len()
        invariant
            n <= candidates.len(),
            cs == candidates.deep_view(),
            question.rungs == rungs.deep_view(),
            question.rung == rung@,
            question.size_bytes == size_bytes,
            best@.dom() == question.domains(cs.take(n as int)),
            forall|d: Seq<char>| #[trigger]
                best@.contains_key(d) ==> question.leads(cs.take(n as int), best@[d] as int)
                    && question.domain_of(cs[best@[d] as int]) == d,
        decreases candidates.len() - n,
    {
        let c: &Candidate = &candidates[n];
        let ghost was = best@;
        let ghost old = cs.take(n as int);
        let ghost new = cs.take(n + 1);
        proof {
            assert(cs[n as int] == c@);
            assert forall|d: Seq<char>| #[trigger] was.contains_key(d) implies 0 <= was[d] < n by {
                assert(question.leads(old, was[d] as int));
            }
            assert(forall|j: int| 0 <= j < n ==> #[trigger] new[j] == old[j]);
        }
        if c.free_bytes >= size_bytes {
            let d: String = domain_at(&c.labels, rungs, rung);
            let replace: bool = match best.get(d.as_str()) {
                None => true,
                Some(cur) => c.better(&candidates[*cur]),
            };
            let ghost key = d@;
            proof {
                assert(new[n as int] == c@);
                assert(question.domains(new) =~= question.domains(old).insert(key)) by {
                    assert forall|x: Seq<char>| question.domains(new).contains(x)
                        == question.domains(old).insert(key).contains(x) by {
                        if question.domains(old).contains(x) {
                            let i = choose|i: int|
                                0 <= i < old.len() && question.fits(#[trigger] old[i])
                                    && question.domain_of(old[i]) == x;
                            assert(question.fits(new[i]));
                        }
                        if question.domains(new).contains(x) && x != key {
                            let i = choose|i: int|
                                0 <= i < new.len() && question.fits(#[trigger] new[i])
                                    && question.domain_of(new[i]) == x;
                            assert(question.fits(old[i]));
                        }
                    }
                }
            }
            if replace {
                best.insert(d, n);
            }
            proof {
                assert forall|x: Seq<char>| #[trigger] best@.contains_key(x) implies question.leads(
                    new,
                    best@[x] as int,
                ) && question.domain_of(cs[best@[x] as int]) == x by {
                    if was.contains_key(x) {
                        question.leader_extends(cs, n as int, was[x] as int);
                    } else {
                        assert(x == key);
                        assert forall|j: int|
                            0 <= j < new.len() && question.fits(#[trigger] new[j])
                                && question.domain_of(new[j]) == key && j != n implies false by {
                            assert(question.fits(old[j]));
                            assert(question.domains(old).contains(key));
                        }
                    }
                }
            }
        } else {
            proof {
                assert(question.domains(new) =~= question.domains(old)) by {
                    assert forall|x: Seq<char>| question.domains(new).contains(x)
                        == question.domains(old).contains(x) by {
                        if question.domains(old).contains(x) {
                            let i = choose|i: int|
                                0 <= i < old.len() && question.fits(#[trigger] old[i])
                                    && question.domain_of(old[i]) == x;
                            assert(question.fits(new[i]));
                        }
                        if question.domains(new).contains(x) {
                            let i = choose|i: int|
                                0 <= i < new.len() && question.fits(#[trigger] new[i])
                                    && question.domain_of(new[i]) == x;
                            assert(question.fits(old[i]));
                        }
                    }
                }
                assert forall|x: Seq<char>| #[trigger] best@.contains_key(x) implies question.leads(
                    new,
                    best@[x] as int,
                ) by {
                    question.leader_extends(cs, n as int, was[x] as int);
                }
            }
        }
        n = n + 1;
    }
    assert(cs.take(n as int) =~= cs);
    best
}

/// The positions as whole numbers.
spec fn ints(s: Seq<usize>) -> Seq<int> {
    Seq::new(s.len(), |i: int| s[i] as int)
}

/// The best candidates of the domains, in the order in which they are taken.
#[verifier::spinoff_prover]
fn in_rank(
    candidates: &[Candidate],
    best: &NameMap<usize>,
    Ghost(question): Ghost<Question>,
) -> (picks: Vec<usize>)
    requires
        best@.dom() == question.domains(candidates.deep_view()),
        forall|d: Seq<char>| #[trigger]
            best@.contains_key(d) ==> question.leads(candidates.deep_view(), best@[d] as int)
                && question.domain_of(candidates.deep_view()[best@[d] as int]) == d,
    ensures
        question.ranks(candidates.deep_view(), ints(picks@)),
        picks.len() == best@.dom().len(),
{
    let ghost cs = candidates.deep_view();
    let count: usize = best.len();
    let ghost keys = best.keys();
    let mut picks: Vec<usize> = Vec::new();
    let mut k: usize = 0;
    while k < count
        invariant
            k <= count,
            count == keys.len(),
            keys == best.keys(),
            names::ascending(keys),
            keys.to_set() == best@.dom(),
            cs == candidates.deep_view(),
            forall|d: Seq<char>| #[trigger]
                best@.contains_key(d) ==> question.leads(cs, best@[d] as int)
                    && question.domain_of(cs[best@[d] as int]) == d,
            picks.len() == k,
            forall|i: int| 0 <= i < k ==> (#[trigger] picks[i]) < cs.len(),
            forall|i: int|
                0 <= i < k ==> question.leads(cs, (#[trigger] picks[i]) as int) && exists|j: int|
                    0 <= j < k && question.domain_of(cs[picks[i] as int]) == #[trigger] keys[j],
            forall|j: int| 0 <= j < k ==> ints(picks@).contains(best@[#[trigger] keys[j]] as int),
            forall|p: int, q: int|
                0 <= p < q < k ==> question.ahead(
                    cs[(#[trigger] picks[p]) as int],
                    cs[(#[trigger] picks[q]) as int],
                ),
        decreases count - k,
    {
        let i: usize = *best.value_at(k);
        let ghost key = keys[k as int];
        proof {
            assert(keys.to_set().contains(key));
            assert(best@.contains_key(key));
            assert(i == best@[key]);
        }
        let ghost c = cs[i as int];
        let mut at: usize = 0;
        while at < picks.len() && !candidates[i].better(&candidates[picks[at]])
            invariant
                at <= picks.len(),
                i < cs.len(),
                c == cs[i as int],
                cs == candidates.deep_view(),
                forall|j: int| 0 <= j < picks.len() ==> (#[trigger] picks[j]) < cs.len(),
                forall|j: int| 0 <= j < at ==> !c.better(cs[(#[trigger] picks[j]) as int]),
            decreases picks.len() - at,
        {
            at = at + 1;
        }
        let ghost old = picks@;
        picks.insert(at, i);
        proof {
            assert(picks@ =~= old.insert(at as int, i));
            assert forall|j: int| 0 <= j < old.len() implies text::lt(
                question.domain_of(cs[(#[trigger] old[j]) as int]),
                key,
            ) by {
                let m = choose|m: int|
                    0 <= m < k && question.domain_of(cs[old[j] as int]) == #[trigger] keys[m];
                assert(text::lt(keys[m], keys[k as int]));
            }
            question.insert_keeps_order(cs, old, at as int, i);
            assert forall|p: int| 0 <= p < k + 1 implies question.leads(
                cs,
                (#[trigger] picks[p]) as int,
            ) && exists|j: int|
                0 <= j < k + 1 && question.domain_of(cs[picks[p] as int]) == #[trigger] keys[j] by {
                if p == at {
                    assert(question.domain_of(cs[picks[p] as int]) == keys[k as int]);
                } else {
                    let a = if p < at { p } else { p - 1 };
                    assert(picks[p] == old[a]);
                    let j = choose|j: int|
                        0 <= j < k && question.domain_of(cs[old[a] as int]) == #[trigger] keys[j];
                    assert(question.domain_of(cs[picks[p] as int]) == keys[j]);
                }
            }
            assert forall|j: int| 0 <= j < k + 1 implies ints(picks@).contains(
                best@[#[trigger] keys[j]] as int,
            ) by {
                if j == k {
                    assert(ints(picks@)[at as int] == i);
                } else {
                    let a = ints(old).index_of(best@[keys[j]] as int);
                    let p = if a < at { a } else { a + 1 };
                    assert(ints(picks@)[p] == ints(old)[a]);
                }
            }
        }
        k = k + 1;
    }
    proof {
        let all = ints(picks@);
        assert forall|i: int| #[trigger] all.contains(i) <==> question.leads(cs, i) by {
            if all.contains(i) {
                let p = all.index_of(i);
                assert(picks[p] as int == i);
            }
            if question.leads(cs, i) {
                let d = question.domain_of(cs[i]);
                assert(question.domains(cs).contains(d));
                assert(best@.contains_key(d));
                question.leader_unique(cs, i, best@[d] as int);
                assert(keys.to_set().contains(d));
                let j = keys.index_of(d);
                assert(all.contains(best@[keys[j]] as int));
            }
        }
        assert forall|p: int, q: int| 0 <= p < q < all.len() implies question.ahead(
            cs[#[trigger] all[p]],
            cs[#[trigger] all[q]],
        ) by {
            assert(question.ahead(cs[picks[p] as int], cs[picks[q] as int]));
        }
    }
    picks
}

/// Pick `replicas` nodes for legs of a `size_bytes` volume: one node per
/// distinct domain at `rung`, preferring emptier nodes (load balancing), ties
/// broken by name for determinism.
pub fn plan(
    candidates: &[Candidate],
    rungs: &[String],
    rung: &str,
    replicas: u32,
    size_bytes: u64,
) -> (r: Result<Vec<String>, String>)
    ensures
        ({
            let q = Question { rungs: rungs.deep_view(), rung: rung@, replicas, size_bytes };
            let cs = candidates.deep_view();
            match r {
                Ok(legs) => q.answer(cs) == Ok::<Seq<Seq<char>>, Seq<char>>(legs.deep_view())
                    && q.ranks(cs, q.ranking(cs)) && replicas <= q.ranking(cs).len(),
                Err(e) => q.answer(cs) == Err::<Seq<Seq<char>>, Seq<char>>(e@),
            }
        }),
{
    let ghost q = Question { rungs: rungs.deep_view(), rung: rung@, replicas, size_bytes };
    let ghost cs = candidates.deep_view();
    let best: NameMap<usize> = best_of_domains(candidates, rungs, rung, size_bytes, Ghost(q));
    if best.is_empty() {
        proof {
            assert forall|i: int| 0 <= i < cs.len() implies !q.fits(#[trigger] cs[i]) by {
                if q.fits(cs[i]) {
                    assert(q.domains(cs).contains(q.domain_of(cs[i])));
                    assert(best@.contains_key(q.domain_of(cs[i])));
                }
            }
        }
        return Err(
            text::owned("no node with ").concat(text::decimal(size_bytes).as_str()).concat(
                " bytes free (",
            ).concat(text::decimal(candidates.len() as u64).as_str()).concat(" candidates)"),
        );
    }
    let count: usize = best.len();
    proof {
        if forall|i: int| 0 <= i < cs.len() ==> !q.fits(#[trigger] cs[i]) {
            assert(best@ =~= Map::empty());
        }
    }
    if (count as u64) < replicas as u64 {
        let mut keys: Vec<String> = Vec::new();
        let mut i: usize = 0;
        while i < count
            invariant
                i <= count,
                count == best.keys().len(),
                keys.len() == i,
                forall|j: int| 0 <= j < i ==> (#[trigger] keys[j])@ == best.keys()[j],
            decreases count - i,
        {
            keys.push(best.key_at(i).clone());
            i = i + 1;
        }
        assert(keys.deep_view() =~= names::sorted(q.domains(cs)));
        return Err(
            text::owned("need ").concat(text::decimal(replicas as u64).as_str()).concat(
                " distinct domains at rung ",
            ).concat(text::quoted(rung).as_str()).concat(", found ").concat(
                text::decimal(count as u64).as_str(),
            ).concat(": [").concat(text::join(&keys, ", ").as_str()).concat("]"),
        );
    }
    let picks: Vec<usize> = in_rank(candidates, &best, Ghost(q));
    proof {
        q.ranking_unique(cs, q.ranking(cs), ints(picks@));
    }
    let mut legs: Vec<String> = Vec::new();
    let mut i: usize = 0;
    while i < replicas as usize
        invariant
            i <= replicas,
            replicas <= picks.len(),
            legs.len() == i,
            cs == candidates.deep_view(),
            q.ranks(cs, ints(picks@)),
            forall|j: int| 0 <= j < i ==> (#[trigger] legs[j])@ == cs[ints(picks@)[j]].name,
        decreases replicas - i,
    {
        proof {
            assert(ints(picks@).contains(ints(picks@)[i as int]));
            assert(q.leads(cs, picks[i as int] as int));
        }
        legs.push(candidates[picks[i]].name.clone());
        i = i + 1;
    }
    assert(legs.deep_view() =~= Seq::new(replicas as nat, |k: int| cs[q.ranking(cs)[k]].name));
    Ok(legs)
}

} // verus!
