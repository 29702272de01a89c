//! Lists that keep some items of another list, each as something made of it.

use vstd::prelude::*;

verus! {

/// The items of `s` that are kept, each as what `f` makes of it.
pub open spec fn kept<A, B>(s: Seq<A>, p: spec_fn(A) -> bool, f: spec_fn(A) -> B) -> Seq<B> {
    s.filter(p).map_values(f)
}

/// One item more: it is kept, at the end, or left out.
pub proof fn kept_of_more<A, B>(s: Seq<A>, p: spec_fn(A) -> bool, f: spec_fn(A) -> B)
    requires
        s.len() > 0,
    ensures
        kept(s, p, f) == if p(s.last()) {
            kept(s.drop_last(), p, f).push(f(s.last()))
        } else {
            kept(s.drop_last(), p, f)
        },
{
    reveal(Seq::filter);
    let front = s.drop_last();
    if p(s.last()) {
        assert(front.filter(p).push(s.last()).map_values(f) =~= front.filter(p).map_values(f).push(
            f(s.last()),
        ));
    }
}

/// Nothing is kept of nothing.
pub proof fn kept_of_none<A, B>(s: Seq<A>, p: spec_fn(A) -> bool, f: spec_fn(A) -> B)
    requires
        s.len() == 0,
    ensures
        kept(s, p, f) == Seq::<B>::empty(),
{
    reveal(Seq::filter);
    assert(kept(s, p, f) =~= Seq::<B>::empty());
}

/// What is to be kept is there.
pub proof fn kept_holds<A, B>(s: Seq<A>, p: spec_fn(A) -> bool, f: spec_fn(A) -> B, i: int)
    requires
        0 <= i < s.len(),
        p(s[i]),
    ensures
        kept(s, p, f).contains(f(s[i])),
    decreases s.len(),
{
    kept_of_more(s, p, f);
    let front = s.drop_last();
    let all = kept(s, p, f);
    if i < front.len() {
        kept_holds(front, p, f, i);
        let before = kept(front, p, f);
        let k = choose|k: int| 0 <= k < before.len() && before[k] == f(s[i]);
        assert(all[k] == f(s[i]));
    } else {
        assert(all[all.len() - 1] == f(s[i]));
    }
}

/// What is there was to be kept.
pub proof fn kept_comes_from<A, B>(
    s: Seq<A>,
    p: spec_fn(A) -> bool,
    f: spec_fn(A) -> B,
    k: int,
) -> (i: int)
    requires
        0 <= k < kept(s, p, f).len(),
    ensures
        0 <= i < s.len(),
        p(s[i]),
        kept(s, p, f)[k] == f(s[i]),
    decreases s.len(),
{
    if s.len() == 0 {
        kept_of_none(s, p, f);
        0
    } else {
        kept_of_more(s, p, f);
        let front = s.drop_last();
        if k < kept(front, p, f).len() {
            kept_comes_from(front, p, f, k)
        } else {
            s.len() - 1
        }
    }
}

/// Items that differ by some mark stay apart by it.
pub proof fn kept_differ<A, B, C>(
    s: Seq<A>,
    p: spec_fn(A) -> bool,
    f: spec_fn(A) -> B,
    mark: spec_fn(B) -> C,
)
    requires
        forall|x: int, y: int|
            0 <= x < y < s.len() ==> mark(f(#[trigger] s[x])) != mark(f(#[trigger] s[y])),
    ensures
        forall|x: int, y: int|
            0 <= x < y < kept(s, p, f).len() ==> mark(#[trigger] kept(s, p, f)[x]) != mark(
                #[trigger] kept(s, p, f)[y],
            ),
    decreases s.len(),
{
    if s.len() == 0 {
        kept_of_none(s, p, f);
    } else {
        let front = s.drop_last();
        assert forall|x: int, y: int| 0 <= x < y < front.len() implies mark(f(#[trigger] front[x]))
            != mark(f(#[trigger] front[y])) by {
            assert(mark(f(s[x])) != mark(f(s[y])));
        }
        kept_differ(front, p, f, mark);
        kept_of_more(s, p, f);
        let before = kept(front, p, f);
        let all = kept(s, p, f);
        assert forall|x: int, y: int| 0 <= x < y < all.len() implies mark(#[trigger] all[x])
            != mark(#[trigger] all[y]) by {
            if y < before.len() {
                assert(mark(before[x]) != mark(before[y]));
            } else {
                let i = kept_comes_from(front, p, f, x);
                assert(mark(f(s[i])) != mark(f(s[s.len() - 1])));
            }
        }
    }
}

/// The sum of numbers.
pub open spec fn sum(s: Seq<nat>) -> nat
    decreases s.len(),
{
    if s.len() == 0 {
        0
    } else {
        sum(s.drop_last()) + s.last()
    }
}

/// The lists one after the other.
pub open spec fn chained<A>(s: Seq<Seq<A>>) -> Seq<A>
    decreases s.len(),
{
    if s.len() == 0 {
        Seq::empty()
    } else {
        chained(s.drop_last()) + s.last()
    }
}

/// What stands in one of the lists stands in the chain of them.
pub proof fn chain_holds<A>(s: Seq<Seq<A>>, k: int, x: A)
    requires
        0 <= k < s.len(),
        s[k].contains(x),
    ensures
        chained(s).contains(x),
    decreases s.len(),
{
    let front = chained(s.drop_last());
    if k < s.len() - 1 {
        chain_holds(s.drop_last(), k, x);
        let j = front.index_of(x);
        assert(chained(s)[j] == x);
    } else {
        let j = s.last().index_of(x);
        assert(chained(s)[front.len() + j] == x);
    }
}

/// What stands in the chain of lists stands in one of them.
pub proof fn chained_comes_from<A>(s: Seq<Seq<A>>, x: A) -> (k: int)
    requires
        chained(s).contains(x),
    ensures
        0 <= k < s.len(),
        s[k].contains(x),
    decreases s.len(),
{
    let front = chained(s.drop_last());
    let i = chained(s).index_of(x);
    if i < front.len() {
        assert(front[i] == x);
        chained_comes_from(s.drop_last(), x)
    } else {
        assert(s.last()[i - front.len()] == x);
        s.len() - 1
    }
}

} // verus!
