//! Searching and stable sorting, stated over sequences.

use crate::text::chars_of;
use vstd::prelude::*;

verus! {

/// The first element of `s` that satisfies `p`.
pub open spec fn first_where<T>(s: Seq<T>, p: spec_fn(T) -> bool) -> Option<T>
    decreases s.len(),
{
    if s.len() == 0 {
        None
    } else if p(s[0]) {
        Some(s[0])
    } else {
        first_where(s.skip(1), p)
    }
}

/// What `first_where` finds: the element at the least index satisfying `p`.
pub proof fn lemma_first_where<T>(s: Seq<T>, p: spec_fn(T) -> bool)
    ensures
        match first_where(s, p) {
            Some(x) => exists|i: int|
                0 <= i < s.len() && #[trigger] s[i] == x && p(x) && (forall|j: int|
                    0 <= j < i ==> !p(#[trigger] s[j])),
            None => forall|i: int| 0 <= i < s.len() ==> !p(#[trigger] s[i]),
        },
    decreases s.len(),
{
    if s.len() > 0 && !p(s[0]) {
        let t = s.skip(1);
        lemma_first_where(t, p);
        match first_where(t, p) {
            Some(x) => {
                let i = choose|i: int|
                    0 <= i < t.len() && #[trigger] t[i] == x && p(x) && (forall|j: int|
                        0 <= j < i ==> !p(#[trigger] t[j]));
                assert(s[i + 1] == x);
                assert forall|j: int| 0 <= j < i + 1 implies !p(#[trigger] s[j]) by {
                    if j > 0 {
                        assert(s[j] == t[j - 1]);
                    }
                }
            },
            None => {
                assert forall|i: int| 0 <= i < s.len() implies !p(#[trigger] s[i]) by {
                    if i > 0 {
                        assert(s[i] == t[i - 1]);
                    }
                }
            },
        }
    }
}

/// How a scan from the left establishes `first_where`.
pub proof fn lemma_first_where_at<T>(s: Seq<T>, p: spec_fn(T) -> bool, i: int)
    requires
        0 <= i <= s.len(),
        forall|j: int| 0 <= j < i ==> !p(#[trigger] s[j]),
        i < s.len() ==> p(s[i]),
    ensures
        first_where(s, p) == (if i < s.len() { Some(s[i]) } else { None }),
    decreases i,
{
    if i > 0 {
        assert(!p(s[0]));
        let t = s.skip(1);
        assert forall|j: int| 0 <= j < i - 1 implies !p(#[trigger] t[j]) by {
            assert(t[j] == s[j + 1]);
        }
        lemma_first_where_at(t, p, i - 1);
    }
}

/// A total preorder on the elements of a list that is to be sorted.
pub trait Ranked: Sized {
    spec fn at_most(&self, other: &Self) -> bool;

    proof fn total(a: &Self, b: &Self)
        ensures
            a.at_most(b) || b.at_most(a),
    ;

    proof fn transitive(a: &Self, b: &Self, c: &Self)
        requires
            a.at_most(b),
            b.at_most(c),
        ensures
            a.at_most(c),
    ;

}

/// A [`Ranked`] type whose values can be compared at run time.
pub trait Comparable: Ranked {
    fn is_at_most(&self, other: &Self) -> (r: bool)
        ensures
            r == self.at_most(other),
    ;
}

/// `s` with `x` put after the last element that does not rank above it.
pub open spec fn inserted<T: Ranked>(s: Seq<T>, x: T) -> Seq<T>
    decreases s.len(),
{
    if s.len() == 0 || s.last().at_most(&x) {
        s.push(x)
    } else {
        inserted(s.drop_last(), x).push(s.last())
    }
}

/// `s` in rank order; elements of equal rank keep the order they had.
pub open spec fn sorted<T: Ranked>(s: Seq<T>) -> Seq<T>
    decreases s.len(),
{
    if s.len() == 0 {
        s
    } else {
        inserted(sorted(s.drop_last()), s.last())
    }
}

pub open spec fn is_sorted<T: Ranked>(s: Seq<T>) -> bool {
    forall|i: int, j: int| #![trigger s[i], s[j]] 0 <= i < j < s.len() ==> s[i].at_most(&s[j])
}

/// Whether `x` ranks with `y`: neither above the other.
pub open spec fn level<T: Ranked>(x: T, y: T) -> bool {
    x.at_most(&y) && y.at_most(&x)
}

proof fn lemma_inserted<T: Ranked>(s: Seq<T>, x: T)
    requires
        is_sorted(s),
    ensures
        is_sorted(inserted(s, x)),
        inserted(s, x).len() == s.len() + 1,
        inserted(s, x).to_multiset() == s.to_multiset().insert(x),
        inserted(s, x).last() == x || (s.len() > 0 && inserted(s, x).last() == s.last()),
    decreases s.len(),
{
    broadcast use vstd::seq_lib::group_to_multiset_ensures;

    if s.len() == 0 || s.last().at_most(&x) {
        assert forall|i: int, j: int|
            #![trigger s.push(x)[i], s.push(x)[j]]
            0 <= i < j < s.push(x).len() implies s.push(x)[i].at_most(&s.push(x)[j]) by {
            if j == s.len() && i < s.len() - 1 {
                T::transitive(&s[i], &s.last(), &x);
            }
        }
    } else {
        let d = s.drop_last();
        lemma_inserted(d, x);
        T::total(&s.last(), &x);
        let r = inserted(d, x);
        assert(s == d.push(s.last()));
        let t = r.push(s.last());
        assert forall|i: int, j: int| #![trigger t[i], t[j]] 0 <= i < j < t.len() implies t[i].at_most(
            &t[j],
        ) by {
            if j == r.len() {
                if i < r.len() - 1 {
                    assert(r[i].at_most(&r.last()));
                }
                if r.last() == x {
                    if i < r.len() - 1 {
                        T::transitive(&r[i], &x, &s.last());
                    }
                } else {
                    assert(d.len() > 0 && r.last() == d.last());
                    assert(s[d.len() - 1].at_most(&s[d.len() as int]));
                    if i < r.len() - 1 {
                        T::transitive(&r[i], &r.last(), &s.last());
                    }
                }
            }
        }
    }
}

/// Sorting loses nothing, adds nothing, and leaves the list in rank order.
pub proof fn lemma_sorted<T: Ranked>(s: Seq<T>)
    ensures
        is_sorted(sorted(s)),
        sorted(s).len() == s.len(),
        sorted(s).to_multiset() == s.to_multiset(),
    decreases s.len(),
{
    broadcast use vstd::seq_lib::group_to_multiset_ensures;

    if s.len() > 0 {
        lemma_sorted(s.drop_last());
        lemma_inserted(sorted(s.drop_last()), s.last());
        assert(s == s.drop_last().push(s.last()));
    }
}

proof fn lemma_inserted_stable<T: Ranked>(s: Seq<T>, x: T, y: T)
    requires
        is_sorted(s),
    ensures
        inserted(s, x).filter(|e: T| level(e, y)) == s.push(x).filter(|e: T| level(e, y)),
    decreases s.len(),
{
    broadcast use vstd::seq::Seq::lemma_filter_push;

    let p = |e: T| level(e, y);
    if s.len() == 0 || s.last().at_most(&x) {
    } else {
        let d = s.drop_last();
        lemma_inserted_stable(d, x, y);
        T::total(&s.last(), &x);
        assert(s == d.push(s.last()));
        assert(inserted(s, x).filter(p) == d.push(x).push(s.last()).filter(p));
        // `x` ranks strictly below the last element, so at most one of the two
        // is level with `y`.
        if p(x) && p(s.last()) {
            T::transitive(&s.last(), &y, &x);
        }
    }
}

/// Sorting is stable: the elements that rank with `y` come out in the order
/// they went in.
pub proof fn lemma_sorted_stable<T: Ranked>(s: Seq<T>, y: T)
    ensures
        sorted(s).filter(|e: T| level(e, y)) == s.filter(|e: T| level(e, y)),
    decreases s.len(),
{
    broadcast use vstd::seq::Seq::lemma_filter_push;

    let p = |e: T| level(e, y);
    if s.len() > 0 {
        lemma_sorted_stable(s.drop_last(), y);
        lemma_sorted(s.drop_last());
        lemma_inserted_stable(sorted(s.drop_last()), s.last(), y);
        assert(s == s.drop_last().push(s.last()));
    }
}

/// Sorting what is already in order changes nothing.
pub proof fn lemma_sorted_fixed<T: Ranked>(s: Seq<T>)
    requires
        is_sorted(s),
    ensures
        sorted(s) == s,
    decreases s.len(),
{
    if s.len() > 0 {
        let d = s.drop_last();
        lemma_sorted_fixed(d);
        assert(s == d.push(s.last()));
        if d.len() > 0 {
            assert(s[d.len() - 1].at_most(&s[d.len() as int]));
        }
    }
}

proof fn lemma_inserted_map<T: Ranked, U: Ranked>(s: Seq<T>, x: T, f: spec_fn(T) -> U)
    requires
        forall|a: T, b: T| #[trigger] a.at_most(&b) <==> f(a).at_most(&f(b)),
    ensures
        inserted(s, x).map_values(f) == inserted(s.map_values(f), f(x)),
    decreases s.len(),
{
    if s.len() == 0 || s.last().at_most(&x) {
        assert(s.len() > 0 ==> s.map_values(f).last() == f(s.last()));
        assert(s.push(x).map_values(f) == s.map_values(f).push(f(x)));
    } else {
        let d = s.drop_last();
        lemma_inserted_map(d, x, f);
        assert(s.map_values(f).drop_last() == d.map_values(f));
        assert(s.map_values(f).last() == f(s.last()));
        assert(inserted(d, x).push(s.last()).map_values(f) == inserted(d, x).map_values(f).push(
            f(s.last()),
        ));
    }
}

/// Sorting commutes with any change of representation that keeps the ranking.
pub proof fn lemma_sorted_map<T: Ranked, U: Ranked>(s: Seq<T>, f: spec_fn(T) -> U)
    requires
        forall|a: T, b: T| #[trigger] a.at_most(&b) <==> f(a).at_most(&f(b)),
    ensures
        sorted(s).map_values(f) == sorted(s.map_values(f)),
    decreases s.len(),
{
    if s.len() > 0 {
        let d = s.drop_last();
        lemma_sorted_map(d, f);
        lemma_inserted_map(sorted(d), s.last(), f);
        assert(s.map_values(f).drop_last() == d.map_values(f));
    } else {
        assert(s.map_values(f) == Seq::<U>::empty());
    }
}

/// Dictionary order on character sequences, by code point.
pub open spec fn dictionary(a: Seq<char>, b: Seq<char>) -> bool
    decreases a.len(),
{
    if a.len() == 0 {
        true
    } else if b.len() == 0 {
        false
    } else if a[0] != b[0] {
        a[0] < b[0]
    } else {
        dictionary(a.skip(1), b.skip(1))
    }
}

pub proof fn lemma_dictionary_total(a: Seq<char>, b: Seq<char>)
    ensures
        dictionary(a, b) || dictionary(b, a),
    decreases a.len(),
{
    if a.len() > 0 && b.len() > 0 {
        lemma_dictionary_total(a.skip(1), b.skip(1));
    }
}

pub proof fn lemma_dictionary_transitive(a: Seq<char>, b: Seq<char>, c: Seq<char>)
    requires
        dictionary(a, b),
        dictionary(b, c),
    ensures
        dictionary(a, c),
    decreases a.len(),
{
    if a.len() > 0 && b.len() > 0 && c.len() > 0 && a[0] == b[0] && b[0] == c[0] {
        lemma_dictionary_transitive(a.skip(1), b.skip(1), c.skip(1));
    }
}

/// Two strings that each come no later than the other are the same string.
pub proof fn lemma_dictionary_antisymmetric(a: Seq<char>, b: Seq<char>)
    requires
        dictionary(a, b),
        dictionary(b, a),
    ensures
        a == b,
    decreases a.len(),
{
    if a.len() > 0 && b.len() > 0 {
        lemma_dictionary_antisymmetric(a.skip(1), b.skip(1));
        assert(a == seq![a[0]] + a.skip(1));
        assert(b == seq![b[0]] + b.skip(1));
    } else {
        assert(a == b);
    }
}

pub fn in_dictionary_order(a: &str, b: &str) -> (r: bool)
    ensures
        r == dictionary(a@, b@),
{
    let x = chars_of(a);
    let y = chars_of(b);
    let mut i: usize = 0;
    assert(x@.skip(0) == x@);
    assert(y@.skip(0) == y@);
    while i < x.len() && i < y.len() && x[i] == y[i]
        invariant
            i <= x@.len(),
            i <= y@.len(),
            dictionary(x@, y@) == dictionary(x@.skip(i as int), y@.skip(i as int)),
        decreases x@.len() - i,
    {
        assert(x@.skip(i as int).skip(1) == x@.skip(i + 1));
        assert(y@.skip(i as int).skip(1) == y@.skip(i + 1));
        i += 1;
    }
    if i >= x.len() {
        true
    } else if i >= y.len() {
        false
    } else {
        x[i] < y[i]
    }
}

/// Puts `x` in its place in `v`.
pub fn insert<T: Comparable>(v: &mut Vec<T>, x: T)
    ensures
        final(v)@ == inserted(old(v)@, x),
{
    let mut k: usize = v.len();
    let ghost s = v@;
    assert(s.take(k as int) == s);
    assert(s.skip(k as int) == Seq::<T>::empty());
    assert(inserted(s, x) == inserted(s.take(k as int), x) + s.skip(k as int));
    while k > 0 && !v[k - 1].is_at_most(&x)
        invariant
            v@ == s,
            k <= s.len(),
            inserted(s, x) == inserted(s.take(k as int), x) + s.skip(k as int),
        decreases k,
    {
        let ghost t = s.take(k as int);
        assert(t.last() == s[k - 1]);
        assert(t.drop_last() == s.take(k - 1));
        assert(inserted(t, x) == inserted(s.take(k - 1), x).push(s[k - 1]));
        assert(inserted(s.take(k - 1), x).push(s[k - 1]) + s.skip(k as int) == inserted(
            s.take(k - 1),
            x,
        ) + s.skip(k - 1));
        k -= 1;
    }
    assert(k > 0 ==> s.take(k as int).last() == s[k - 1]);
    assert(inserted(s.take(k as int), x) == s.take(k as int).push(x));
    v.insert(k, x);
    assert(v@ == s.take(k as int).push(x) + s.skip(k as int));
}

pub fn sort<T: Comparable>(v: Vec<T>) -> (r: Vec<T>)
    ensures
        r@ == sorted(v@),
{
    let mut out: Vec<T> = Vec::new();
    let ghost s = v@;
    let mut rest: Vec<T> = v;
    rest = reversed(rest);
    let mut i: usize = 0;
    let n: usize = rest.len();
    assert(s.take(0) == Seq::<T>::empty());
    while i < n
        invariant
            i <= n == s.len(),
            rest@ == s.skip(i as int).reverse(),
            out@ == sorted(s.take(i as int)),
        decreases n - i,
    {
        let ghost before = rest@;
        assert(before.last() == s[i as int]);
        match rest.pop() {
            Some(x) => {
                insert(&mut out, x);
                assert(s.take(i + 1).drop_last() == s.take(i as int));
                assert(rest@ == s.skip(i + 1).reverse());
            },
            None => {},
        }
        i += 1;
    }
    assert(s.take(i as int) == s);
    out
}

/// `v` back to front.
pub fn reversed<T>(v: Vec<T>) -> (r: Vec<T>)
    ensures
        r@ == v@.reverse(),
{
    let mut from: Vec<T> = v;
    let mut out: Vec<T> = Vec::new();
    let ghost s = from@;
    let n: usize = from.len();
    let mut i: usize = n;
    assert(s.take(n as int) == s);
    assert(out@ == s.skip(i as int).reverse());
    while i > 0
        invariant
            i <= s.len(),
            from@ == s.take(i as int),
            out@ == s.skip(i as int).reverse(),
        decreases i,
    {
        match from.pop() {
            Some(x) => {
                out.push(x);
                assert(from@ == s.take(i - 1));
                assert(out@ == s.skip(i - 1).reverse());
            },
            None => {},
        }
        i -= 1;
    }
    assert(s.skip(0) == s);
    out
}

/// Two texts stand in the order of the first character in which they differ,
/// and one that the other begins with comes first.
pub proof fn lemma_the_first_difference_decides(
    common: Seq<char>,
    x: char,
    y: char,
    a: Seq<char>,
    b: Seq<char>,
)
    ensures
        x < y ==> dictionary(common + seq![x] + a, common + seq![y] + b) && !dictionary(
            common + seq![y] + b,
            common + seq![x] + a,
        ),
        dictionary(common, common + a),
        a.len() > 0 ==> !dictionary(common + a, common),
    decreases common.len(),
{
    let left = common + seq![x] + a;
    let right = common + seq![y] + b;
    if common.len() > 0 {
        let rest = common.skip(1);
        lemma_the_first_difference_decides(rest, x, y, a, b);
        assert(left.skip(1) =~= rest + seq![x] + a);
        assert(right.skip(1) =~= rest + seq![y] + b);
        assert((common + a).skip(1) =~= rest + a);
    } else {
        assert(left[0] == x && right[0] == y);
    }
}

} // verus!
