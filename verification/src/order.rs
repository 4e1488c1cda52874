//! Orders used to present results: strings in lexicographic order (the
//! order of `String`'s `Ord`, byte-wise on UTF-8, which is code point order),
//! and a sort for any type with a total preorder.

use vstd::prelude::*;
use vstd::multiset::Multiset;
use crate::text::views;

verus! {

broadcast use vstd::seq_lib::group_seq_properties;

/// Lexicographic "strictly less than" on character sequences, by code point.
pub open spec fn seq_lt(a: Seq<char>, b: Seq<char>) -> bool
    decreases a.len(),
{
    if a.len() == 0 {
        b.len() > 0
    } else if b.len() == 0 {
        false
    } else if a[0] != b[0] {
        (a[0] as u32) < (b[0] as u32)
    } else {
        seq_lt(a.drop_first(), b.drop_first())
    }
}

/// Lexicographic "less than or equal".
pub open spec fn seq_le(a: Seq<char>, b: Seq<char>) -> bool {
    a == b || seq_lt(a, b)
}

pub proof fn lemma_seq_lt_irrefl(a: Seq<char>)
    ensures
        !seq_lt(a, a),
    decreases a.len(),
{
    if a.len() > 0 {
        lemma_seq_lt_irrefl(a.drop_first());
    }
}

pub proof fn lemma_seq_lt_trans(a: Seq<char>, b: Seq<char>, c: Seq<char>)
    requires
        seq_lt(a, b),
        seq_lt(b, c),
    ensures
        seq_lt(a, c),
    decreases a.len(),
{
    if a.len() > 0 && b.len() > 0 && c.len() > 0 {
        if a[0] == b[0] && b[0] == c[0] {
            lemma_seq_lt_trans(a.drop_first(), b.drop_first(), c.drop_first());
        }
    }
}

pub proof fn lemma_seq_lt_total(a: Seq<char>, b: Seq<char>)
    ensures
        a == b || seq_lt(a, b) || seq_lt(b, a),
    decreases a.len(),
{
    if a.len() > 0 && b.len() > 0 {
        if a[0] == b[0] {
            lemma_seq_lt_total(a.drop_first(), b.drop_first());
            if a.drop_first() == b.drop_first() {
                assert(a =~= seq![a[0]] + a.drop_first());
                assert(b =~= seq![b[0]] + b.drop_first());
            }
        } else {
            if (a[0] as u32) == (b[0] as u32) {
                vstd::utf8::char_u32_cast(a[0], a[0] as u32);
                vstd::utf8::char_u32_cast(b[0], b[0] as u32);
            }
        }
    } else if a.len() == 0 && b.len() == 0 {
        assert(a =~= b);
    }
}

pub proof fn lemma_seq_lt_asym(a: Seq<char>, b: Seq<char>)
    requires
        seq_lt(a, b),
    ensures
        !seq_lt(b, a),
        a != b,
{
    lemma_seq_lt_irrefl(a);
    if seq_lt(b, a) {
        lemma_seq_lt_trans(a, b, a);
    }
}

/// Three-way comparison of character sequences: -1, 0 or 1.
pub fn compare_chars(a: &[char], b: &[char]) -> (r: i8)
    ensures
        r == -1 <==> seq_lt(a@, b@),
        r == 0 <==> a@ == b@,
        r == 1 <==> seq_lt(b@, a@),
        r == -1 || r == 0 || r == 1,
{
    let mut i: usize = 0;
    while i < a.len() && i < b.len() && a[i] == b[i]
        invariant
            i <= a@.len(),
            i <= b@.len(),
            a@.take(i as int) == b@.take(i as int),
            seq_lt(a@, b@) == seq_lt(a@.skip(i as int), b@.skip(i as int)),
            seq_lt(b@, a@) == seq_lt(b@.skip(i as int), a@.skip(i as int)),
        decreases a@.len() - i,
    {
        assert(a@.skip(i as int).drop_first() =~= a@.skip(i + 1));
        assert(b@.skip(i as int).drop_first() =~= b@.skip(i + 1));
        assert(a@.take(i + 1) =~= a@.take(i as int).push(a@[i as int]));
        assert(b@.take(i + 1) =~= b@.take(i as int).push(b@[i as int]));
        i += 1;
    }
    proof {
        lemma_seq_lt_irrefl(a@);
        lemma_seq_lt_total(a@, b@);
        if seq_lt(a@, b@) {
            lemma_seq_lt_asym(a@, b@);
        }
        if seq_lt(b@, a@) {
            lemma_seq_lt_asym(b@, a@);
        }
    }
    if i == a.len() && i == b.len() {
        assert(a@ =~= a@.take(i as int));
        assert(b@ =~= b@.take(i as int));
        0
    } else if i == a.len() {
        assert(a@.skip(i as int).len() == 0);
        -1
    } else if i == b.len() {
        assert(b@.skip(i as int).len() == 0);
        1
    } else if (a[i] as u32) < (b[i] as u32) {
        assert(a@.skip(i as int)[0] == a@[i as int]);
        assert(b@.skip(i as int)[0] == b@[i as int]);
        -1
    } else {
        assert(a@.skip(i as int)[0] == a@[i as int]);
        assert(b@.skip(i as int)[0] == b@[i as int]);
        1
    }
}

/// A total preorder on the values of a type, with an executable test.
pub trait Ranked: Sized {
    /// Whether `self` comes no later than `other`.
    spec fn precedes(&self, other: &Self) -> bool;

    /// Executable form of `precedes`.
    fn precedes_exec(&self, other: &Self) -> (r: bool)
        ensures
            r == self.precedes(other),
    ;

    proof fn precedes_total(a: &Self, b: &Self)
        ensures
            a.precedes(b) || b.precedes(a),
    ;

    proof fn precedes_trans(a: &Self, b: &Self, c: &Self)
        requires
            a.precedes(b),
            b.precedes(c),
        ensures
            a.precedes(c),
    ;
}

/// Whether `s` is in order.
pub open spec fn in_order<T: Ranked>(s: Seq<T>) -> bool {
    forall|i: int, j: int| #![trigger s[i], s[j]] 0 <= i < j < s.len() ==> s[i].precedes(&s[j])
}

/// The elements of `v`, in order.
pub fn sort_ranked<T: Ranked>(v: Vec<T>) -> (r: Vec<T>)
    ensures
        r@.to_multiset() == v@.to_multiset(),
        in_order(r@),
{
    let ghost orig = v@;
    let mut v = v;
    let mut out: Vec<T> = Vec::new();
    while v.len() > 0
        invariant
            out@.to_multiset().add(v@.to_multiset()) == orig.to_multiset(),
            in_order(out@),
        decreases v@.len(),
    {
        let ghost before = v@;
        let x = v.pop().unwrap();
        assert(before == v@.push(x));
        let mut p: usize = 0;
        while p < out.len() && out[p].precedes_exec(&x)
            invariant
                p <= out@.len(),
                forall|i: int| 0 <= i < p ==> (#[trigger] out@[i]).precedes(&x),
            decreases out@.len() - p,
        {
            p += 1;
        }
        let ghost old_out = out@;
        proof {
            assert forall|j: int| #![trigger old_out[j]] p <= j < old_out.len() implies x.precedes(&old_out[j]) by {
                if !x.precedes(&old_out[j]) {
                    T::precedes_total(&x, &old_out[j]);
                    T::precedes_trans(&old_out[p as int], &old_out[j], &x);
                }
            }
        }
        out.insert(p, x);
        proof {
            assert(out@ == old_out.insert(p as int, x));
            old_out.insert_ensures(p as int, x);
            assert(out@.remove(p as int) =~= old_out);
            assert forall|i: int, j: int| #![trigger out@[i], out@[j]] 0 <= i < j < out@.len() implies out@[i].precedes(
                &out@[j],
            ) by {
                if j < p {
                } else if i < p && j == p {
                } else if i < p {
                    T::precedes_trans(&out@[i], &x, &out@[j]);
                } else if i == p {
                } else {
                    assert(out@[i] == old_out[i - 1]);
                    assert(out@[j] == old_out[j - 1]);
                }
            }
            assert(out@.to_multiset() =~= old_out.to_multiset().insert(x)) by {
                assert(out@.to_multiset().remove(x) =~= old_out.to_multiset());
                assert(out@.contains(x)) by {
                    assert(out@[p as int] == x);
                }
            }
            assert(before.to_multiset() =~= v@.to_multiset().insert(x));
        }
    }
    assert(v@.to_multiset() =~= Multiset::<T>::empty());
    assert(out@.to_multiset() =~= out@.to_multiset().add(Multiset::<T>::empty()));
    out
}

/// Whether a sequence of strings is strictly increasing (sorted, no repeats).
pub open spec fn strictly_sorted(s: Seq<Seq<char>>) -> bool {
    forall|i: int, j: int| #![trigger s[i], s[j]] 0 <= i < j < s.len() ==> seq_lt(s[i], s[j])
}

/// Adds `x` to a strictly increasing vector of strings, keeping it so.
pub fn insert_sorted_unique(v: &mut Vec<Vec<char>>, x: Vec<char>)
    requires
        strictly_sorted(views(old(v)@)),
    ensures
        strictly_sorted(views(final(v)@)),
        views(final(v)@).to_set() == views(old(v)@).to_set().insert(x@),
{
    let ghost old_v = views(v@);
    let mut p: usize = 0;
    while p < v.len() && compare_chars(v[p].as_slice(), x.as_slice()) == -1
        invariant
            p <= v@.len(),
            old_v == views(v@),
            forall|i: int| 0 <= i < p ==> seq_lt(#[trigger] old_v[i], x@),
        decreases v@.len() - p,
    {
        assert(old_v[p as int] == v@[p as int]@);
        p += 1;
    }
    if p < v.len() && compare_chars(v[p].as_slice(), x.as_slice()) == 0 {
        assert(old_v[p as int] == x@);
        assert(old_v.to_set().insert(x@) =~= old_v.to_set());
        return;
    }
    proof {
        if p < v@.len() {
            assert(old_v[p as int] == v@[p as int]@);
            lemma_seq_lt_total(old_v[p as int], x@);
            assert(seq_lt(x@, old_v[p as int]));
            assert forall|j: int| p <= j < old_v.len() implies seq_lt(x@, #[trigger] old_v[j]) by {
                if j > p {
                    lemma_seq_lt_trans(x@, old_v[p as int], old_v[j]);
                }
            }
        }
    }
    let ghost xv = x@;
    v.insert(p, x);
    proof {
        let nv = views(v@);
        assert(nv =~= old_v.insert(p as int, xv));
        old_v.insert_ensures(p as int, xv);
        assert forall|i: int, j: int| #![trigger nv[i], nv[j]] 0 <= i < j < nv.len() implies seq_lt(
            nv[i],
            nv[j],
        ) by {
            if j < p {
            } else if i < p && j == p {
            } else if i < p {
                assert(nv[j] == old_v[j - 1]);
                lemma_seq_lt_trans(nv[i], xv, nv[j]);
            } else if i == p {
                assert(nv[j] == old_v[j - 1]);
            } else {
                assert(nv[i] == old_v[i - 1]);
                assert(nv[j] == old_v[j - 1]);
            }
        }
        assert forall|a: Seq<char>| nv.to_set().contains(a) <==> old_v.to_set().insert(xv).contains(a) by {
            if nv.contains(a) {
                let k = choose|k: int| 0 <= k < nv.len() && nv[k] == a;
                if k < p {
                    assert(old_v[k] == a);
                } else if k > p {
                    assert(old_v[k - 1] == a);
                }
            }
            if old_v.contains(a) {
                let k = choose|k: int| 0 <= k < old_v.len() && old_v[k] == a;
                if k < p {
                    assert(nv[k] == a);
                } else {
                    assert(nv[k + 1] == a);
                }
            }
            if a == xv {
                assert(nv[p as int] == a);
            }
        }
        assert(nv.to_set() =~= old_v.to_set().insert(xv));
    }
}

/// The distinct strings of `items`, in increasing order (`sort` then `dedup`).
pub fn sorted_unique(items: Vec<Vec<char>>) -> (r: Vec<Vec<char>>)
    ensures
        strictly_sorted(views(r@)),
        views(r@).to_set() == views(items@).to_set(),
{
    let ghost all = views(items@);
    let mut items = items;
    let mut out: Vec<Vec<char>> = Vec::new();
    assert(views(out@).to_set() =~= Set::<Seq<char>>::empty());
    while items.len() > 0
        invariant
            strictly_sorted(views(out@)),
            views(out@).to_set().union(views(items@).to_set()) == all.to_set(),
        decreases items@.len(),
    {
        let ghost before = views(items@);
        let x = items.pop().unwrap();
        assert(before =~= views(items@).push(x@));
        assert(before.to_set() =~= views(items@).to_set().insert(x@));
        insert_sorted_unique(&mut out, x);
        assert(views(out@).to_set().union(views(items@).to_set()) =~= all.to_set());
    }
    assert(views(items@).to_set() =~= Set::<Seq<char>>::empty());
    assert(views(out@).to_set() =~= views(out@).to_set().union(Set::<Seq<char>>::empty()));
    out
}

} // verus!
