//! Stable insertion sort over values that know how to compare themselves.
use vstd::prelude::*;

verus! {

/// A strict "sorts after" relation, decided at run time.
pub trait SortKey: Sized {
    spec fn sorts_after(&self, other: &Self) -> bool;

    fn after(&self, other: &Self) -> (r: bool)
        ensures
            r == self.sorts_after(other),
    ;

    proof fn lemma_asymmetric(a: &Self, b: &Self)
        ensures
            a.sorts_after(b) ==> !b.sorts_after(a),
    ;
}

/// `s` with `x` placed after every element it does not sort before:
/// scanning from the end, `x` moves left past elements that sort after it.
pub open spec fn insert_sorted<T: SortKey>(s: Seq<T>, x: T) -> Seq<T>
    decreases s.len(),
{
    if s.len() == 0 || !s.last().sorts_after(&x) {
        s.push(x)
    } else {
        insert_sorted(s.drop_last(), x).push(s.last())
    }
}

/// Stable insertion sort of `s`.
pub open spec fn stable_sorted<T: SortKey>(s: Seq<T>) -> Seq<T>
    decreases s.len(),
{
    if s.len() == 0 {
        s
    } else {
        insert_sorted(stable_sorted(s.drop_last()), s.last())
    }
}

/// No element sorts after the one that follows it.
pub open spec fn is_sorted<T: SortKey>(s: Seq<T>) -> bool {
    forall|i: int| 0 <= i < s.len() - 1 ==> !(#[trigger] s[i]).sorts_after(&s[i + 1])
}

proof fn lemma_insert_at<T: SortKey>(s: Seq<T>, x: T, j: int)
    requires
        0 <= j <= s.len(),
        forall|k: int| j <= k < s.len() ==> (#[trigger] s[k]).sorts_after(&x),
        j == 0 || !s[j - 1].sorts_after(&x),
    ensures
        insert_sorted(s, x) == s.insert(j, x),
    decreases s.len(),
{
    if s.len() == 0 {
        assert(s.insert(j, x) =~= s.push(x));
    } else if j == s.len() {
        assert(s.insert(j, x) =~= s.push(x));
    } else {
        let t = s.drop_last();
        assert forall|k: int| j <= k < t.len() implies (#[trigger] t[k]).sorts_after(&x) by {
            assert(t[k] == s[k]);
        }
        if j > 0 {
            assert(t[j - 1] == s[j - 1]);
        }
        lemma_insert_at(t, x, j);
        assert(s.insert(j, x) =~= t.insert(j, x).push(s.last()));
    }
}

/// Sorts `v` stably (see [`stable_sorted`]).
pub fn stable_sort<T: SortKey>(v: Vec<T>) -> (out: Vec<T>)
    ensures
        out@ == stable_sorted(v@),
{
    let ghost input = v@;
    let mut out: Vec<T> = Vec::new();
    for x in it: v
        invariant
            it.seq() == input,
            out@ == stable_sorted(input.subrange(0, it.index() as int)),
    {
        let ghost i = it.index();
        let mut j = out.len();
        while j > 0 && out[j - 1].after(&x)
            invariant
                j <= out@.len(),
                forall|k: int| j <= k < out@.len() ==> (#[trigger] out@[k]).sorts_after(&x),
            decreases j,
        {
            j = j - 1;
        }
        proof {
            lemma_insert_at(out@, x, j as int);
            let pre = input.subrange(0, i + 1);
            assert(pre.drop_last() =~= input.subrange(0, i as int));
            assert(pre.last() == x);
        }
        out.insert(j, x);
    }
    proof {
        assert(input.subrange(0, input.len() as int) =~= input);
    }
    out
}

proof fn lemma_insert_keeps_sorted<T: SortKey>(s: Seq<T>, x: T)
    requires
        is_sorted(s),
    ensures
        is_sorted(insert_sorted(s, x)),
        insert_sorted(s, x).len() == s.len() + 1,
        s.len() > 0 && s.last().sorts_after(&x) ==> insert_sorted(s, x).last() == s.last(),
        s.len() == 0 || !s.last().sorts_after(&x) ==> insert_sorted(s, x).last() == x,
    decreases s.len(),
{
    if s.len() == 0 || !s.last().sorts_after(&x) {
        let r = s.push(x);
        assert forall|i: int| 0 <= i < r.len() - 1 implies !(#[trigger] r[i]).sorts_after(&r[i + 1]) by {
            if i < s.len() - 1 {
                assert(r[i] == s[i] && r[i + 1] == s[i + 1]);
            }
        }
    } else {
        let t = s.drop_last();
        assert(is_sorted(t)) by {
            assert forall|i: int| 0 <= i < t.len() - 1 implies !(#[trigger] t[i]).sorts_after(&t[i + 1]) by {
                assert(t[i] == s[i] && t[i + 1] == s[i + 1]);
            }
        }
        lemma_insert_keeps_sorted(t, x);
        let u = insert_sorted(t, x);
        let r = u.push(s.last());
        T::lemma_asymmetric(&s.last(), &x);
        assert forall|i: int| 0 <= i < r.len() - 1 implies !(#[trigger] r[i]).sorts_after(&r[i + 1]) by {
            if i < u.len() - 1 {
                assert(r[i] == u[i] && r[i + 1] == u[i + 1]);
            } else {
                assert(r[i] == u.last());
                if t.len() > 0 && t.last().sorts_after(&x) {
                    assert(t.last() == s[s.len() - 2]);
                } else {
                    assert(u.last() == x);
                }
            }
        }
    }
}

/// A stable sort's output is in order.
pub proof fn lemma_stable_sorted_is_sorted<T: SortKey>(s: Seq<T>)
    ensures
        is_sorted(stable_sorted(s)),
        stable_sorted(s).len() == s.len(),
    decreases s.len(),
{
    if s.len() > 0 {
        lemma_stable_sorted_is_sorted(s.drop_last());
        lemma_insert_keeps_sorted(stable_sorted(s.drop_last()), s.last());
    }
}

/// Sorting twice is sorting once.
pub proof fn lemma_stable_sort_idempotent<T: SortKey>(s: Seq<T>)
    ensures
        stable_sorted(stable_sorted(s)) == stable_sorted(s),
{
    lemma_stable_sorted_is_sorted(s);
    lemma_sorted_fixed(stable_sorted(s));
}

proof fn lemma_insert_sorted_last<T: SortKey>(s: Seq<T>, x: T)
    requires
        s.len() == 0 || !s.last().sorts_after(&x),
    ensures
        insert_sorted(s, x) == s.push(x),
{
}

/// Sorting a sequence that is already in order changes nothing.
pub proof fn lemma_sorted_fixed<T: SortKey>(s: Seq<T>)
    requires
        is_sorted(s),
    ensures
        stable_sorted(s) == s,
    decreases s.len(),
{
    if s.len() > 0 {
        let t = s.drop_last();
        assert(is_sorted(t)) by {
            assert forall|i: int| 0 <= i < t.len() - 1 implies !(#[trigger] t[i]).sorts_after(&t[i + 1]) by {
                assert(t[i] == s[i] && t[i + 1] == s[i + 1]);
            }
        }
        lemma_sorted_fixed(t);
        if t.len() > 0 {
            assert(t.last() == s[s.len() - 2]);
            assert(!s[s.len() - 2].sorts_after(&s[s.len() - 1]));
        }
        lemma_insert_sorted_last(t, s.last());
        assert(t.push(s.last()) =~= s);
    }
}

/// Inserting keeps every element and adds `x`.
proof fn lemma_insert_sorted_elements<T: SortKey>(s: Seq<T>, x: T)
    ensures
        insert_sorted(s, x).to_multiset() =~= s.to_multiset().insert(x),
    decreases s.len(),
{
    broadcast use vstd::seq_lib::group_to_multiset_ensures;
    broadcast use vstd::multiset::group_multiset_axioms;

    if s.len() > 0 && s.last().sorts_after(&x) {
        let t = s.drop_last();
        lemma_insert_sorted_elements(t, x);
        assert(t.push(s.last()) =~= s);
    }
}

/// Sorting keeps exactly the elements it was given, each as often as it occurred.
pub proof fn lemma_stable_sorted_elements<T: SortKey>(s: Seq<T>)
    ensures
        stable_sorted(s).to_multiset() =~= s.to_multiset(),
        stable_sorted(s).len() == s.len(),
        forall|y: T| stable_sorted(s).contains(y) <==> s.contains(y),
    decreases s.len(),
{
    broadcast use vstd::seq_lib::group_to_multiset_ensures;

    if s.len() > 0 {
        let t = s.drop_last();
        lemma_stable_sorted_elements(t);
        lemma_insert_sorted_elements(stable_sorted(t), s.last());
        assert(t.push(s.last()) =~= s);
    }
    s.to_multiset_ensures();
    stable_sorted(s).to_multiset_ensures();
    assert forall|y: T| stable_sorted(s).contains(y) <==> s.contains(y) by {
        assert(stable_sorted(s).to_multiset().count(y) == s.to_multiset().count(y));
    }
}

} // verus!
