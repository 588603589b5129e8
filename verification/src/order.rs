//! Orders in which things are listed: text in code point order, paths name
//! by name, and a stable sort for anything that can say which of two
//! values comes first.
use vstd::prelude::*;

verus! {

/// Whether the text `a` comes no later than `b`: `a` is a prefix of `b`,
/// or has the smaller character where they first differ. This is the order
/// of `String`, which compares UTF-8 bytes; UTF-8 keeps the order of code
/// points.
pub open spec fn text_le(a: Seq<char>, b: Seq<char>) -> bool
    decreases a.len(),
{
    if a.len() == 0 {
        true
    } else if b.len() == 0 {
        false
    } else if a[0] != b[0] {
        a[0] < b[0]
    } else {
        text_le(a.drop_first(), b.drop_first())
    }
}

/// Whether the list of names `a` comes no later than `b`, name by name.
/// This is the order of `Path` for paths made of plain names.
pub open spec fn names_le(a: Seq<Seq<char>>, b: Seq<Seq<char>>) -> bool
    decreases a.len(),
{
    if a.len() == 0 {
        true
    } else if b.len() == 0 {
        false
    } else if a[0] != b[0] {
        text_le(a[0], b[0])
    } else {
        names_le(a.drop_first(), b.drop_first())
    }
}

pub proof fn lemma_text_le_total(a: Seq<char>, b: Seq<char>)
    ensures
        text_le(a, b) || text_le(b, a),
    decreases a.len(),
{
    if a.len() > 0 && b.len() > 0 && a[0] == b[0] {
        lemma_text_le_total(a.drop_first(), b.drop_first());
    }
}

pub proof fn lemma_text_le_transitive(a: Seq<char>, b: Seq<char>, c: Seq<char>)
    requires
        text_le(a, b),
        text_le(b, c),
    ensures
        text_le(a, c),
    decreases a.len(),
{
    if a.len() > 0 && b.len() > 0 && c.len() > 0 && a[0] == b[0] && b[0] == c[0] {
        lemma_text_le_transitive(a.drop_first(), b.drop_first(), c.drop_first());
    }
}

pub proof fn lemma_text_le_antisymmetric(a: Seq<char>, b: Seq<char>)
    requires
        text_le(a, b),
        text_le(b, a),
    ensures
        a == b,
    decreases a.len(),
{
    if a.len() > 0 && b.len() > 0 {
        lemma_text_le_antisymmetric(a.drop_first(), b.drop_first());
        assert(a =~= seq![a[0]] + a.drop_first());
        assert(b =~= seq![b[0]] + b.drop_first());
    } else {
        assert(a =~= b);
    }
}

pub proof fn lemma_names_le_total(a: Seq<Seq<char>>, b: Seq<Seq<char>>)
    ensures
        names_le(a, b) || names_le(b, a),
    decreases a.len(),
{
    if a.len() > 0 && b.len() > 0 {
        if a[0] == b[0] {
            lemma_names_le_total(a.drop_first(), b.drop_first());
        } else {
            lemma_text_le_total(a[0], b[0]);
        }
    }
}

pub proof fn lemma_names_le_transitive(a: Seq<Seq<char>>, b: Seq<Seq<char>>, c: Seq<Seq<char>>)
    requires
        names_le(a, b),
        names_le(b, c),
    ensures
        names_le(a, c),
    decreases a.len(),
{
    if a.len() > 0 && b.len() > 0 && c.len() > 0 {
        if a[0] == b[0] && b[0] == c[0] {
            lemma_names_le_transitive(a.drop_first(), b.drop_first(), c.drop_first());
        } else if a[0] != b[0] && b[0] != c[0] {
            lemma_text_le_transitive(a[0], b[0], c[0]);
            if a[0] == c[0] {
                lemma_text_le_antisymmetric(a[0], b[0]);
            }
        }
    }
}

/// Whether the text `a` comes no later than `b`.
pub fn text_no_later(a: &Vec<char>, b: &Vec<char>) -> (r: bool)
    ensures
        r == text_le(a@, b@),
{
    let mut i: usize = 0;
    proof {
        assert(a@.skip(0) =~= a@);
        assert(b@.skip(0) =~= b@);
    }
    while i < a.len() && i < b.len() && a[i] == b[i]
        invariant
            i <= a.len(),
            i <= b.len(),
            text_le(a@, b@) == text_le(a@.skip(i as int), b@.skip(i as int)),
        decreases a.len() - i,
    {
        proof {
            assert(a@.skip(i as int).drop_first() =~= a@.skip(i + 1));
            assert(b@.skip(i as int).drop_first() =~= b@.skip(i + 1));
        }
        i = i + 1;
    }
    if i == a.len() {
        true
    } else if i == b.len() {
        false
    } else {
        a[i] < b[i]
    }
}

/// Whether the list of names `a` comes no later than `b`.
pub fn names_no_later(a: &Vec<Vec<char>>, b: &Vec<Vec<char>>) -> (r: bool)
    ensures
        r == names_le(crate::path::views(a@), crate::path::views(b@)),
{
    let ghost av = crate::path::views(a@);
    let ghost bv = crate::path::views(b@);
    let mut i: usize = 0;
    proof {
        assert(av.skip(0) =~= av);
        assert(bv.skip(0) =~= bv);
    }
    while i < a.len() && i < b.len() && crate::text::chars_eq(&a[i], &b[i])
        invariant
            i <= a.len(),
            i <= b.len(),
            av == crate::path::views(a@),
            bv == crate::path::views(b@),
            names_le(av, bv) == names_le(av.skip(i as int), bv.skip(i as int)),
        decreases a.len() - i,
    {
        proof {
            assert(av.skip(i as int).drop_first() =~= av.skip(i + 1));
            assert(bv.skip(i as int).drop_first() =~= bv.skip(i + 1));
            assert(av.skip(i as int)[0] == a@[i as int]@);
            assert(bv.skip(i as int)[0] == b@[i as int]@);
        }
        i = i + 1;
    }
    if i == a.len() {
        true
    } else if i == b.len() {
        false
    } else {
        proof {
            assert(av.skip(i as int)[0] == a@[i as int]@);
            assert(bv.skip(i as int)[0] == b@[i as int]@);
        }
        text_no_later(&a[i], &b[i])
    }
}

// ---------------------------------------------------------------------------
// Stable sorting
// ---------------------------------------------------------------------------
/// Values that can say which of two comes first, by their views.
pub trait Ranked: View + Sized {
    /// Whether a value whose view is `a` may be listed before one whose
    /// view is `b`.
    spec fn view_le(a: Self::V, b: Self::V) -> bool;

    fn comes_no_later(&self, other: &Self) -> (r: bool)
        ensures
            r == Self::view_le(self@, other@),
    ;
}

/// The views of the values of `s`.
pub open spec fn views_of<T: View>(s: Seq<T>) -> Seq<T::V> {
    s.map_values(|x: T| x@)
}

/// `s` with `x` inserted after the last value that comes no later than `x`
/// (scanning from the end).
pub open spec fn insert_ranked<T: Ranked>(s: Seq<T::V>, x: T::V) -> Seq<T::V>
    decreases s.len(),
{
    if s.len() == 0 {
        seq![x]
    } else if T::view_le(s.last(), x) {
        s.push(x)
    } else {
        insert_ranked::<T>(s.drop_last(), x).push(s.last())
    }
}

/// `s` sorted by insertion, one value after another: a stable sort, which
/// keeps values that rank alike in their order in `s`.
pub open spec fn ranked<T: Ranked>(s: Seq<T::V>) -> Seq<T::V>
    decreases s.len(),
{
    if s.len() == 0 {
        Seq::empty()
    } else {
        insert_ranked::<T>(ranked::<T>(s.drop_last()), s.last())
    }
}

/// Sorts `v` stably.
pub fn rank_sort<T: Ranked>(v: Vec<T>) -> (r: Vec<T>)
    ensures
        views_of(r@) == ranked::<T>(views_of(v@)),
{
    let ghost orig = views_of(v@);
    let mut rest = v;
    let mut out: Vec<T> = Vec::new();
    let ghost mut k: int = 0;
    proof {
        assert(orig.take(0) =~= Seq::<T::V>::empty());
        assert(orig.skip(0) =~= orig);
        assert(views_of(out@) =~= Seq::<T::V>::empty());
    }
    while rest.len() > 0
        invariant
            0 <= k <= orig.len(),
            views_of(rest@) == orig.skip(k),
            views_of(out@) == ranked::<T>(orig.take(k)),
        decreases rest.len(),
    {
        let ghost before_rest = rest@;
        let x = rest.remove(0);
        proof {
            assert(views_of(before_rest).len() == before_rest.len());
            assert(k < orig.len());
            assert(views_of(before_rest)[0] == x@);
            assert(orig[k] == orig.skip(k)[0]);
            assert(orig.take(k + 1).drop_last() =~= orig.take(k));
            assert(orig.take(k + 1).last() == x@);
            assert(rest@ =~= before_rest.skip(1));
            assert forall|i: int| 0 <= i < rest@.len() implies #[trigger] views_of(rest@)[i] == orig.skip(
                k + 1,
            )[i] by {
                assert(rest@[i] == before_rest[i + 1]);
                assert(views_of(before_rest)[i + 1] == orig.skip(k)[i + 1]);
            }
            assert(views_of(rest@) =~= orig.skip(k + 1));
        }
        let ghost ov = views_of(out@);
        let mut j = out.len();
        proof {
            assert(ov.take(j as int) =~= ov);
            assert(ov.skip(j as int) =~= Seq::<T::V>::empty());
            assert(insert_ranked::<T>(ov, x@) =~= insert_ranked::<T>(ov.take(j as int), x@)
                + ov.skip(j as int));
        }
        while j > 0 && !out[j - 1].comes_no_later(&x)
            invariant
                j <= out.len(),
                ov == views_of(out@),
                insert_ranked::<T>(ov, x@) == insert_ranked::<T>(ov.take(j as int), x@) + ov.skip(
                    j as int,
                ),
            decreases j,
        {
            proof {
                let t = ov.take(j as int);
                assert(t.drop_last() =~= ov.take(j - 1));
                assert(t.last() == out@[j - 1]@);
                assert(ov.skip(j - 1) =~= seq![ov[j - 1]] + ov.skip(j as int));
                assert(insert_ranked::<T>(t, x@) == insert_ranked::<T>(ov.take(j - 1), x@).push(
                    ov[j - 1],
                ));
                assert(insert_ranked::<T>(ov.take(j - 1), x@).push(ov[j - 1]) + ov.skip(j as int)
                    =~= insert_ranked::<T>(ov.take(j - 1), x@) + ov.skip(j - 1));
            }
            j = j - 1;
        }
        proof {
            if j > 0 {
                assert(ov.take(j as int).last() == out@[j - 1]@);
            }
            assert(insert_ranked::<T>(ov.take(j as int), x@) =~= ov.take(j as int).push(x@));
        }
        let ghost xv = x@;
        out.insert(j, x);
        proof {
            assert(views_of(out@) =~= ov.take(j as int).push(xv) + ov.skip(j as int));
            k = k + 1;
        }
    }
    proof {
        assert(orig.skip(k).len() == 0);
        assert(orig.take(k) =~= orig);
    }
    out
}

/// Whether `s` lists its values in order.
pub open spec fn is_ranked<T: Ranked>(s: Seq<T::V>) -> bool {
    forall|i: int, j: int| 0 <= i < j < s.len() ==> T::view_le(s[i], s[j])
}

/// Whether the order of `T` is total and transitive, as a sort needs.
pub open spec fn total_order<T: Ranked>() -> bool {
    &&& forall|a: T::V, b: T::V| T::view_le(a, b) || T::view_le(b, a)
    &&& forall|a: T::V, b: T::V, c: T::V|
        #![trigger T::view_le(a, b), T::view_le(b, c)]
        T::view_le(a, b) && T::view_le(b, c) ==> T::view_le(a, c)
}

proof fn lemma_insert_ranked<T: Ranked>(s: Seq<T::V>, x: T::V)
    requires
        total_order::<T>(),
        is_ranked::<T>(s),
    ensures
        is_ranked::<T>(insert_ranked::<T>(s, x)),
        insert_ranked::<T>(s, x).to_multiset() == s.to_multiset().insert(x),
        insert_ranked::<T>(s, x).len() == s.len() + 1,
        forall|i: int|
            0 <= i < insert_ranked::<T>(s, x).len() ==> insert_ranked::<T>(s, x)[i] == x
                || s.contains(#[trigger] insert_ranked::<T>(s, x)[i]),
    decreases s.len(),
{
    broadcast use vstd::seq_lib::group_to_multiset_ensures;

    if s.len() == 0 {
        assert(seq![x] =~= Seq::<T::V>::empty().push(x));
    } else if T::view_le(s.last(), x) {
        let r = s.push(x);
        assert forall|i: int, j: int| 0 <= i < j < r.len() implies T::view_le(r[i], r[j]) by {
            if j == s.len() {
                if i < s.len() - 1 {
                    assert(T::view_le(s[i], s[s.len() - 1]));
                }
            }
        }
        assert forall|i: int| 0 <= i < r.len() implies r[i] == x || s.contains(#[trigger] r[i]) by {
            if i < s.len() {
                assert(s[i] == r[i]);
            }
        }
    } else {
        let t = s.drop_last();
        assert forall|i: int, j: int| 0 <= i < j < t.len() implies T::view_le(t[i], t[j]) by {
            assert(s[i] == t[i] && s[j] == t[j]);
        }
        lemma_insert_ranked::<T>(t, x);
        let u = insert_ranked::<T>(t, x);
        let r = u.push(s.last());
        assert(T::view_le(x, s.last()));
        assert forall|i: int| 0 <= i < u.len() implies T::view_le(u[i], s.last()) by {
            if u[i] != x {
                let k = choose|k: int| 0 <= k < t.len() && t[k] == u[i];
                assert(s[k] == t[k]);
                assert(T::view_le(s[k], s[s.len() - 1]));
            }
        }
        assert forall|i: int, j: int| 0 <= i < j < r.len() implies T::view_le(r[i], r[j]) by {
            if j < u.len() {
                assert(r[i] == u[i] && r[j] == u[j]);
            } else {
                assert(r[i] == u[i]);
            }
        }
        assert forall|i: int| 0 <= i < r.len() implies r[i] == x || s.contains(#[trigger] r[i]) by {
            if i < u.len() {
                assert(r[i] == u[i]);
                if u[i] != x {
                    let k = choose|k: int| 0 <= k < t.len() && t[k] == u[i];
                    assert(s[k] == t[k]);
                }
            } else {
                assert(s[s.len() - 1] == r[i]);
            }
        }
        assert(s =~= t.push(s.last()));
    }
}

/// A stable sort lists its values in order, and lists each value of its
/// input as many times as the input does.
pub proof fn lemma_ranked_sorted<T: Ranked>(s: Seq<T::V>)
    requires
        total_order::<T>(),
    ensures
        is_ranked::<T>(ranked::<T>(s)),
        ranked::<T>(s).to_multiset() == s.to_multiset(),
        ranked::<T>(s).len() == s.len(),
    decreases s.len(),
{
    broadcast use vstd::seq_lib::group_to_multiset_ensures;

    if s.len() > 0 {
        lemma_ranked_sorted::<T>(s.drop_last());
        lemma_insert_ranked::<T>(ranked::<T>(s.drop_last()), s.last());
        assert(s =~= s.drop_last().push(s.last()));
    }
}

/// Every value of a stable sort is a value of its input.
pub proof fn lemma_ranked_sorted_members<T: Ranked>(s: Seq<T::V>)
    ensures
        forall|k: int| 0 <= k < ranked::<T>(s).len() ==> s.contains(#[trigger] ranked::<T>(s)[k]),
        ranked::<T>(s).len() == s.len(),
    decreases s.len(),
{
    if s.len() > 0 {
        lemma_ranked_sorted_members::<T>(s.drop_last());
        lemma_insert_members::<T>(ranked::<T>(s.drop_last()), s.last());
        let r = ranked::<T>(s);
        let p = ranked::<T>(s.drop_last());
        assert forall|k: int| 0 <= k < r.len() implies s.contains(#[trigger] r[k]) by {
            if r[k] == s.last() {
                assert(s[s.len() - 1] == r[k]);
            } else {
                let j = choose|j: int| 0 <= j < p.len() && p[j] == r[k];
                let m = choose|m: int| 0 <= m < s.drop_last().len() && s.drop_last()[m] == p[j];
                assert(s[m] == r[k]);
            }
        }
    }
}

proof fn lemma_insert_members<T: Ranked>(s: Seq<T::V>, x: T::V)
    ensures
        insert_ranked::<T>(s, x).len() == s.len() + 1,
        forall|i: int|
            0 <= i < insert_ranked::<T>(s, x).len() ==> insert_ranked::<T>(s, x)[i] == x
                || s.contains(#[trigger] insert_ranked::<T>(s, x)[i]),
    decreases s.len(),
{
    if s.len() > 0 && !T::view_le(s.last(), x) {
        let t = s.drop_last();
        lemma_insert_members::<T>(t, x);
        let u = insert_ranked::<T>(t, x);
        let r = u.push(s.last());
        assert forall|i: int| 0 <= i < r.len() implies r[i] == x || s.contains(#[trigger] r[i]) by {
            if i < u.len() {
                assert(r[i] == u[i]);
                if u[i] != x {
                    let k = choose|k: int| 0 <= k < t.len() && t[k] == u[i];
                    assert(s[k] == t[k]);
                }
            } else {
                assert(s[s.len() - 1] == r[i]);
            }
        }
    } else if s.len() > 0 {
        let r = s.push(x);
        assert forall|i: int| 0 <= i < r.len() implies r[i] == x || s.contains(#[trigger] r[i]) by {
            if i < s.len() {
                assert(s[i] == r[i]);
            }
        }
    }
}

/// The order of `String`, spelled out: `a` comes no later than `b` when it
/// is a prefix of `b` (so a name comes before every longer name it
/// begins), or when, at the first place where they differ, `a` has the
/// smaller character.
pub open spec fn comes_first_in_text(a: Seq<char>, b: Seq<char>) -> bool {
    ||| (a.len() <= b.len() && b.take(a.len() as int) == a)
    ||| exists|k: int|
        0 <= k < a.len() && k < b.len() && a.take(k) == b.take(k) && #[trigger] a[k] < b[k]
}

/// Text order is the order of `String`.
pub proof fn lemma_text_le_is_string_order(a: Seq<char>, b: Seq<char>)
    ensures
        text_le(a, b) <==> comes_first_in_text(a, b),
    decreases a.len(),
{
    if a.len() == 0 {
        assert(b.take(0) =~= a);
    } else if b.len() == 0 {
        if comes_first_in_text(a, b) {
            assert(false);
        }
    } else if a[0] != b[0] {
        assert(a.take(0) =~= b.take(0));
        if comes_first_in_text(a, b) && !(a[0] < b[0]) {
            if a.len() <= b.len() && b.take(a.len() as int) == a {
                assert(b.take(a.len() as int)[0] == a[0]);
            } else {
                let k = choose|k: int|
                    0 <= k < a.len() && k < b.len() && a.take(k) == b.take(k) && #[trigger] a[k]
                        < b[k];
                if k > 0 {
                    assert(a.take(k)[0] == b.take(k)[0]);
                }
            }
        }
    } else {
        let a1 = a.drop_first();
        let b1 = b.drop_first();
        lemma_text_le_is_string_order(a1, b1);
        if comes_first_in_text(a1, b1) {
            if a1.len() <= b1.len() && b1.take(a1.len() as int) == a1 {
                assert(b.take(a.len() as int) =~= seq![a[0]] + b1.take(a1.len() as int));
                assert(a =~= seq![a[0]] + a1);
            } else {
                let k = choose|k: int|
                    0 <= k < a1.len() && k < b1.len() && a1.take(k) == b1.take(k) && #[trigger] a1[k]
                        < b1[k];
                assert(a.take(k + 1) =~= seq![a[0]] + a1.take(k));
                assert(b.take(k + 1) =~= seq![b[0]] + b1.take(k));
                assert(a[k + 1] == a1[k] && b[k + 1] == b1[k]);
            }
        }
        if comes_first_in_text(a, b) {
            if a.len() <= b.len() && b.take(a.len() as int) == a {
                assert(b1.take(a1.len() as int) =~= b.take(a.len() as int).drop_first());
                assert(a1 =~= a.drop_first());
            } else {
                let k = choose|k: int|
                    0 <= k < a.len() && k < b.len() && a.take(k) == b.take(k) && #[trigger] a[k]
                        < b[k];
                assert(k > 0);
                assert(a1.take(k - 1) =~= a.take(k).drop_first());
                assert(b1.take(k - 1) =~= b.take(k).drop_first());
                assert(a1[k - 1] == a[k] && b1[k - 1] == b[k]);
            }
        }
    }
}

} // verus!
