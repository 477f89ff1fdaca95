//! Ordering of text, and the stable sort and de-duplication used to give
//! listings a fixed order.

use vstd::prelude::*;

use crate::text::chars_of;

verus! {

/// Lexicographic order on character sequences by code point, a proper prefix
/// coming first. For UTF-8 strings this is the order `String`'s `Ord` gives,
/// since UTF-8 byte order follows code point order.
pub open spec fn lex_le(a: Seq<char>, b: Seq<char>) -> bool
    decreases a.len(),
{
    if a.len() == 0 {
        true
    } else if b.len() == 0 {
        false
    } else if a[0] < b[0] {
        true
    } else if a[0] == b[0] {
        lex_le(a.drop_first(), b.drop_first())
    } else {
        false
    }
}

/// Order on optional text: absent first, then by [`lex_le`].
pub open spec fn opt_lex_le(a: Option<Seq<char>>, b: Option<Seq<char>>) -> bool {
    match (a, b) {
        (None, _) => true,
        (Some(_), None) => false,
        (Some(x), Some(y)) => lex_le(x, y),
    }
}

pub proof fn lemma_lex_le_total(a: Seq<char>, b: Seq<char>)
    ensures
        lex_le(a, b) || lex_le(b, a),
    decreases a.len(),
{
    if a.len() > 0 && b.len() > 0 && a[0] == b[0] {
        lemma_lex_le_total(a.drop_first(), b.drop_first());
    }
}

pub proof fn lemma_lex_le_antisymmetric(a: Seq<char>, b: Seq<char>)
    requires
        lex_le(a, b),
        lex_le(b, a),
    ensures
        a == b,
    decreases a.len(),
{
    if a.len() > 0 && b.len() > 0 {
        lemma_lex_le_antisymmetric(a.drop_first(), b.drop_first());
        assert(a =~= seq![a[0]] + a.drop_first());
        assert(b =~= seq![b[0]] + b.drop_first());
    }
}

pub proof fn lemma_lex_le_transitive(a: Seq<char>, b: Seq<char>, c: Seq<char>)
    requires
        lex_le(a, b),
        lex_le(b, c),
    ensures
        lex_le(a, c),
    decreases a.len(),
{
    if a.len() > 0 && b.len() > 0 && c.len() > 0 && a[0] == b[0] && b[0] == c[0] {
        lemma_lex_le_transitive(a.drop_first(), b.drop_first(), c.drop_first());
    }
}

/// Whether `a` comes no later than `b` in lexicographic order.
pub fn lex_le_chars(a: &Vec<char>, b: &Vec<char>) -> (r: bool)
    ensures
        r == lex_le(a@, b@),
{
    let mut i: usize = 0;
    assert(a@.skip(0) =~= a@);
    assert(b@.skip(0) =~= b@);
    while i < a.len() && i < b.len() && a[i] == b[i]
        invariant
            i <= a@.len(),
            i <= b@.len(),
            lex_le(a@, b@) == lex_le(a@.skip(i as int), b@.skip(i as int)),
        decreases a@.len() - i,
    {
        assert(a@.skip(i as int).drop_first() =~= a@.skip(i + 1));
        assert(b@.skip(i as int).drop_first() =~= b@.skip(i + 1));
        i += 1;
    }
    if i == a.len() {
        true
    } else if i == b.len() {
        false
    } else {
        assert(a@.skip(i as int)[0] == a@[i as int]);
        assert(b@.skip(i as int)[0] == b@[i as int]);
        a[i] < b[i]
    }
}

/// Whether `a` comes no later than `b` in lexicographic order.
pub fn lex_le_str(a: &str, b: &str) -> (r: bool)
    ensures
        r == lex_le(a@, b@),
{
    lex_le_chars(&chars_of(a), &chars_of(b))
}

/// Whether `a` comes no later than `b`, absent text first.
pub fn opt_lex_le_str(a: &Option<String>, b: &Option<String>) -> (r: bool)
    ensures
        r == opt_lex_le(opt_view(*a), opt_view(*b)),
{
    match (a, b) {
        (None, _) => true,
        (Some(_), None) => false,
        (Some(x), Some(y)) => lex_le_str(x.as_str(), y.as_str()),
    }
}

/// The view of an optional string.
pub open spec fn opt_view(o: Option<String>) -> Option<Seq<char>> {
    match o {
        Some(s) => Some(s@),
        None => None,
    }
}

/// Items that a listing orders by a key: `le_view` is the key order on views.
pub trait SortKey: View + Sized {
    spec fn le_view(a: Self::V, b: Self::V) -> bool;

    fn key_le(&self, other: &Self) -> (r: bool)
        ensures
            r == Self::le_view(self@, other@),
    ;
}

/// The views of the items of `s`.
pub open spec fn views<T: View>(s: Seq<T>) -> Seq<T::V> {
    s.map_values(|x: T| x@)
}

/// `s` with `x` placed after the last item that is no greater than it (and so
/// after every item of equal key).
pub open spec fn insert_sorted<T: SortKey>(s: Seq<T::V>, x: T::V) -> Seq<T::V>
    decreases s.len(),
{
    if s.len() == 0 {
        seq![x]
    } else if T::le_view(s.last(), x) {
        s.push(x)
    } else {
        insert_sorted::<T>(s.drop_last(), x).push(s.last())
    }
}

/// The stable sort of `s` by key: items of equal key keep their relative order.
pub open spec fn sort_stable<T: SortKey>(s: Seq<T::V>) -> Seq<T::V>
    decreases s.len(),
{
    if s.len() == 0 {
        Seq::empty()
    } else {
        insert_sorted::<T>(sort_stable::<T>(s.drop_last()), s.last())
    }
}

/// `s` with every run of equal items reduced to one.
pub open spec fn dedup<A>(s: Seq<A>) -> Seq<A>
    decreases s.len(),
{
    if s.len() <= 1 {
        s
    } else if s.last() == s[s.len() - 2] {
        dedup(s.drop_last())
    } else {
        dedup(s.drop_last()).push(s.last())
    }
}

proof fn lemma_insert_sorted_at<T: SortKey>(s: Seq<T::V>, x: T::V, j: int)
    requires
        0 <= j <= s.len(),
        j == 0 || T::le_view(s[j - 1], x),
        forall|k: int| j <= k < s.len() ==> !T::le_view(#[trigger] s[k], x),
    ensures
        insert_sorted::<T>(s, x) == s.insert(j, x),
    decreases s.len(),
{
    if s.len() == 0 {
        assert(s.insert(j, x) =~= seq![x]);
    } else if j == s.len() {
        assert(s.insert(j, x) =~= s.push(x));
    } else {
        assert(!T::le_view(s[s.len() - 1], x));
        let t = s.drop_last();
        assert forall|k: int| j <= k < t.len() implies !T::le_view(#[trigger] t[k], x) by {
            assert(t[k] == s[k]);
        }
        lemma_insert_sorted_at::<T>(t, x, j);
        assert(t.insert(j, x).push(s.last()) =~= s.insert(j, x));
    }
}

/// Insert `x` into the stably sorted `v`, after every item no greater than it.
fn insert_stable<T: SortKey>(v: &mut Vec<T>, x: T)
    ensures
        views(final(v)@) == insert_sorted::<T>(views(old(v)@), x@),
{
    let mut j = v.len();
    while j > 0 && !v[j - 1].key_le(&x)
        invariant
            j <= v@.len(),
            forall|k: int| j <= k < v@.len() ==> !T::le_view(#[trigger] v@[k]@, x@),
        decreases j,
    {
        j -= 1;
    }
    proof {
        let s = views(v@);
        assert forall|k: int| j <= k < s.len() implies !T::le_view(#[trigger] s[k], x@) by {
            assert(s[k] == v@[k]@);
        }
        if j > 0 {
            assert(s[j - 1] == v@[j - 1]@);
        }
        lemma_insert_sorted_at::<T>(s, x@, j as int);
    }
    let ghost before = v@;
    v.insert(j, x);
    assert(views(v@) =~= views(before).insert(j as int, x@));
}

/// Sort `v` stably by key.
pub fn sort_stable_vec<T: SortKey>(v: Vec<T>) -> (r: Vec<T>)
    ensures
        views(r@) == sort_stable::<T>(views(v@)),
{
    let mut out: Vec<T> = Vec::new();
    let ghost all = views(v@);
    let mut taken: usize = 0;
    let n = v.len();
    let mut rev = reversed(v);
    assert forall|k: int| 0 <= k < rev@.len() implies #[trigger] rev@[k]@ == all[n - 1 - k] by {
        assert(rev@[k] == v@[n - 1 - k]);
    }
    assert(views(out@) =~= sort_stable::<T>(all.take(0)));
    while rev.len() > 0
        invariant
            taken + rev@.len() == n,
            n == all.len(),
            forall|k: int| 0 <= k < rev@.len() ==> #[trigger] rev@[k]@ == all[n - 1 - k],
            views(out@) == sort_stable::<T>(all.take(taken as int)),
        decreases rev@.len(),
    {
        let x = rev.pop().unwrap();
        assert(x@ == all[taken as int]);
        assert(all.take(taken + 1).drop_last() =~= all.take(taken as int));
        insert_stable(&mut out, x);
        taken += 1;
    }
    assert(all.take(n as int) =~= all);
    out
}

/// The items of `v` in reverse order, so that `pop` yields them in order.
pub fn reversed<T>(v: Vec<T>) -> (r: Vec<T>)
    ensures
        r@.len() == v@.len(),
        forall|k: int| 0 <= k < r@.len() ==> #[trigger] r@[k] == v@[v@.len() - 1 - k],
{
    let ghost all = v@;
    let n = v.len();
    let mut rest = v;
    let mut rev: Vec<T> = Vec::new();
    while rest.len() > 0
        invariant
            rest@.len() + rev@.len() == n,
            n == all.len(),
            forall|k: int| 0 <= k < rev@.len() ==> #[trigger] rev@[k] == all[n - 1 - k],
            forall|k: int| 0 <= k < rest@.len() ==> #[trigger] rest@[k] == all[k],
        decreases rest@.len(),
    {
        let x = rest.pop().unwrap();
        rev.push(x);
    }
    rev
}

/// `s` is in ascending key order.
pub open spec fn sorted_by<T: SortKey>(s: Seq<T::V>) -> bool {
    forall|i: int, j: int| 0 <= i < j < s.len() ==> T::le_view(#[trigger] s[i], #[trigger] s[j])
}

/// The key order of `T` relates any two views.
pub open spec fn key_order_total<T: SortKey>() -> bool {
    forall|a: T::V, b: T::V| #[trigger] T::le_view(a, b) || T::le_view(b, a)
}

/// The key order of `T` is transitive.
pub open spec fn key_order_transitive<T: SortKey>() -> bool {
    forall|a: T::V, b: T::V, c: T::V|
        #[trigger] T::le_view(a, b) && #[trigger] T::le_view(b, c) ==> T::le_view(a, c)
}

/// The key order of `T` relates two views both ways only when they are equal.
pub open spec fn key_order_antisymmetric<T: SortKey>() -> bool {
    forall|a: T::V, b: T::V| #[trigger] T::le_view(a, b) && #[trigger] T::le_view(b, a) ==> a == b
}

proof fn lemma_insert_sorted_props<T: SortKey>(s: Seq<T::V>, x: T::V)
    requires
        sorted_by::<T>(s),
        key_order_total::<T>(),
        key_order_transitive::<T>(),
    ensures
        sorted_by::<T>(insert_sorted::<T>(s, x)),
        insert_sorted::<T>(s, x).to_multiset() == s.to_multiset().insert(x),
    decreases s.len(),
{
    broadcast use vstd::seq_lib::group_to_multiset_ensures;

    if s.len() == 0 {
        assert(seq![x] =~= Seq::<T::V>::empty().push(x));
    } else if T::le_view(s.last(), x) {
        let r = s.push(x);
        assert forall|i: int, j: int| 0 <= i < j < r.len() implies T::le_view(#[trigger] r[i], #[trigger] r[j]) by {
            if j == s.len() {
                if i < s.len() - 1 {
                    assert(T::le_view(s[i], s[s.len() - 1]));
                }
            }
        }
    } else {
        let d = s.drop_last();
        let last = s.last();
        assert(sorted_by::<T>(d)) by {
            assert forall|i: int, j: int| 0 <= i < j < d.len() implies T::le_view(#[trigger] d[i], #[trigger] d[j]) by {
                assert(d[i] == s[i] && d[j] == s[j]);
            }
        }
        lemma_insert_sorted_props::<T>(d, x);
        let m = insert_sorted::<T>(d, x);
        let r = m.push(last);
        assert(T::le_view(x, last));
        assert forall|k: int| 0 <= k < m.len() implies T::le_view(#[trigger] m[k], last) by {
            assert(m.to_multiset().count(m[k]) > 0);
            if m[k] != x {
                assert(d.to_multiset().count(m[k]) > 0);
                assert(d.contains(m[k]));
                let i = choose|i: int| 0 <= i < d.len() && d[i] == m[k];
                assert(s[i] == d[i]);
                assert(T::le_view(s[i], s[s.len() - 1]));
            }
        }
        assert forall|i: int, j: int| 0 <= i < j < r.len() implies T::le_view(#[trigger] r[i], #[trigger] r[j]) by {
            if j == m.len() {
                assert(T::le_view(m[i], last));
            } else {
                assert(r[i] == m[i] && r[j] == m[j]);
            }
        }
        assert(s =~= d.push(last));
        assert(s.to_multiset() =~= d.to_multiset().insert(last));
    }
}

/// The stable sort is in ascending key order and holds exactly the items it
/// was given, when the key order is a total preorder.
pub proof fn lemma_sort_stable_sorted<T: SortKey>(s: Seq<T::V>)
    requires
        key_order_total::<T>(),
        key_order_transitive::<T>(),
    ensures
        sorted_by::<T>(sort_stable::<T>(s)),
        sort_stable::<T>(s).to_multiset() == s.to_multiset(),
    decreases s.len(),
{
    broadcast use vstd::seq_lib::group_to_multiset_ensures;

    if s.len() > 0 {
        lemma_sort_stable_sorted::<T>(s.drop_last());
        lemma_insert_sorted_props::<T>(sort_stable::<T>(s.drop_last()), s.last());
        assert(s =~= s.drop_last().push(s.last()));
    }
}

/// Removing runs of equal items keeps every item and keeps the order; under
/// an antisymmetric order, a sorted sequence becomes strictly ascending.
pub proof fn lemma_dedup_sorted<T: SortKey>(s: Seq<T::V>)
    requires
        sorted_by::<T>(s),
        key_order_transitive::<T>(),
        key_order_antisymmetric::<T>(),
    ensures
        sorted_by::<T>(dedup(s)),
        forall|i: int, j: int| 0 <= i < j < dedup(s).len() ==> #[trigger] dedup(s)[i] != #[trigger] dedup(s)[j],
        forall|a: T::V| #[trigger] dedup(s).contains(a) <==> s.contains(a),
    decreases s.len(),
{
    if s.len() > 1 {
        let d = s.drop_last();
        assert(sorted_by::<T>(d)) by {
            assert forall|i: int, j: int| 0 <= i < j < d.len() implies T::le_view(#[trigger] d[i], #[trigger] d[j]) by {
                assert(d[i] == s[i] && d[j] == s[j]);
            }
        }
        lemma_dedup_sorted::<T>(d);
        lemma_dedup_last(d);
        let dd = dedup(d);
        let last = s.last();
        assert forall|a: T::V| d.contains(a) implies T::le_view(a, last) by {
            let i = choose|i: int| 0 <= i < d.len() && d[i] == a;
            assert(s[i] == d[i]);
        }
        if last == s[s.len() - 2] {
            assert forall|a: T::V| #[trigger] dedup(s).contains(a) <==> s.contains(a) by {
                if s.contains(a) && !d.contains(a) {
                    let i = choose|i: int| 0 <= i < s.len() && s[i] == a;
                    if i < s.len() - 1 {
                        assert(d[i] == a);
                    } else {
                        assert(d[s.len() - 2] == a);
                    }
                }
                if d.contains(a) {
                    let i = choose|i: int| 0 <= i < d.len() && d[i] == a;
                    assert(s[i] == a);
                }
            }
        } else {
            let r = dd.push(last);
            assert(dd.last() == s[s.len() - 2]);
            assert(forall|k: int| 0 <= k < dd.len() ==> dd.contains(#[trigger] dd[k]));
            assert forall|i: int, j: int| 0 <= i < j < r.len() implies T::le_view(#[trigger] r[i], #[trigger] r[j]) by {
                if j == dd.len() {
                    assert(dd.contains(dd[i]));
                } else {
                    assert(r[i] == dd[i] && r[j] == dd[j]);
                }
            }
            assert forall|i: int, j: int| 0 <= i < j < r.len() implies #[trigger] r[i] != #[trigger] r[j] by {
                if j == dd.len() {
                    if dd[i] == last {
                        let k = dd.len() - 1;
                        assert(dd.contains(dd[k]));
                        assert(T::le_view(dd[i], dd[k]));
                        assert(T::le_view(dd[k], last));
                        assert(dd[k] == last);
                    }
                } else {
                    assert(r[i] == dd[i] && r[j] == dd[j]);
                }
            }
            assert forall|a: T::V| #[trigger] r.contains(a) <==> s.contains(a) by {
                if s.contains(a) {
                    let i = choose|i: int| 0 <= i < s.len() && s[i] == a;
                    if i < s.len() - 1 {
                        assert(d[i] == a);
                        assert(dd.contains(a));
                        let k = choose|k: int| 0 <= k < dd.len() && dd[k] == a;
                        assert(r[k] == a);
                    } else {
                        assert(r[dd.len() as int] == a);
                    }
                }
                if r.contains(a) {
                    let k = choose|k: int| 0 <= k < r.len() && r[k] == a;
                    if k < dd.len() {
                        assert(dd[k] == a);
                        assert(dd.contains(a));
                        let i = choose|i: int| 0 <= i < d.len() && d[i] == a;
                        assert(s[i] == a);
                    } else {
                        assert(s[s.len() - 1] == a);
                    }
                }
            }
        }
    }
}

/// Items whose views can be compared for equality at run time.
pub trait ViewEq: View + Sized {
    fn view_eq(&self, other: &Self) -> (r: bool)
        ensures
            r == (self@ == other@),
    ;
}

proof fn lemma_dedup_last<A>(s: Seq<A>)
    requires
        s.len() > 0,
    ensures
        dedup(s).len() > 0,
        dedup(s).last() == s.last(),
    decreases s.len(),
{
    if s.len() > 1 {
        lemma_dedup_last(s.drop_last());
    }
}

/// `v` with every run of items of equal view reduced to its first item.
pub fn dedup_vec<T: ViewEq>(v: Vec<T>) -> (r: Vec<T>)
    ensures
        views(r@) == dedup(views(v@)),
{
    let ghost all = views(v@);
    let n = v.len();
    let mut rev = reversed(v);
    assert forall|k: int| 0 <= k < rev@.len() implies #[trigger] rev@[k]@ == all[n - 1 - k] by {
        assert(rev@[k] == v@[n - 1 - k]);
    }
    let mut out: Vec<T> = Vec::new();
    let mut taken: usize = 0;
    assert(views(out@) =~= dedup(all.take(0)));
    while rev.len() > 0
        invariant
            taken + rev@.len() == n,
            n == all.len(),
            forall|k: int| 0 <= k < rev@.len() ==> #[trigger] rev@[k]@ == all[n - 1 - k],
            views(out@) == dedup(all.take(taken as int)),
            taken > 0 ==> out@.len() > 0 && out@.last()@ == all[taken - 1],
        decreases rev@.len(),
    {
        let x = rev.pop().unwrap();
        let ghost prefix = all.take(taken + 1);
        assert(x@ == all[taken as int]);
        assert(prefix.drop_last() =~= all.take(taken as int));
        let keep = if out.len() == 0 {
            true
        } else {
            let last = out.len() - 1;
            !out[last].view_eq(&x)
        };
        proof {
            if taken > 0 {
                assert(prefix[prefix.len() - 2] == all[taken - 1]);
                lemma_dedup_last(all.take(taken as int));
            } else {
                assert(prefix =~= seq![x@]);
            }
        }
        if keep {
            let ghost before = out@;
            out.push(x);
            assert(views(out@) =~= views(before).push(x@));
        }
        taken += 1;
        proof {
            lemma_dedup_last(all.take(taken as int));
        }
    }
    assert(all.take(n as int) =~= all);
    out
}

} // verus!
