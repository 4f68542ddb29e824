//! Orders and permutations: sorting and filtering give the same result for
//! sequences that hold the same elements in another order.
use vstd::prelude::*;
use vstd::seq_lib::{group_to_multiset_ensures, lemma_multiset_commutative, to_multiset_len};
use vstd::utf8::char_u32_cast;
use vstd::multiset::group_multiset_axioms;
use crate::text::{insert_sorted, lex_le_fn, lex_lt, sort_by};

verus! {

/// `le` is a total order: any two elements compare, the order is
/// transitive, and elements that go before each other are equal.
pub open spec fn total_order<T>(le: spec_fn(T, T) -> bool) -> bool {
    &&& forall|a: T, b: T| #[trigger] le(a, b) || le(b, a)
    &&& forall|a: T, b: T, c: T| #[trigger] le(a, b) && #[trigger] le(b, c) ==> le(a, c)
    &&& forall|a: T, b: T| #[trigger] le(a, b) && #[trigger] le(b, a) ==> a == b
}

/// Each element of `s` goes before or with each later one.
pub open spec fn sorted_by<T>(s: Seq<T>, le: spec_fn(T, T) -> bool) -> bool {
    forall|i: int, j: int| 0 <= i < j < s.len() ==> le(#[trigger] s[i], #[trigger] s[j])
}

/// The elements of `s` that `f` maps to a value, mapped, in order.
pub open spec fn filter_map<A, B>(s: Seq<A>, f: spec_fn(A) -> Option<B>) -> Seq<B>
    decreases s.len(),
{
    if s.len() == 0 {
        Seq::empty()
    } else {
        let p = filter_map(s.drop_last(), f);
        match f(s.last()) {
            Some(y) => p.push(y),
            None => p,
        }
    }
}

/// An element of a sequence is counted in its multiset.
proof fn lemma_in_multiset<T>(s: Seq<T>, i: int)
    requires
        0 <= i < s.len(),
    ensures
        s.to_multiset().count(s[i]) > 0,
{
    broadcast use group_to_multiset_ensures;

    assert(s.contains(s[i]));
}

/// An element counted in the multiset of a sequence is in the sequence.
proof fn lemma_from_multiset<T>(s: Seq<T>, x: T) -> (i: int)
    requires
        s.to_multiset().count(x) > 0,
    ensures
        0 <= i < s.len(),
        s[i] == x,
{
    broadcast use group_to_multiset_ensures;

    assert(s.contains(x));
    choose|i: int| 0 <= i < s.len() && s[i] == x
}

/// The multiset of a sequence without its last element.
proof fn lemma_drop_last_multiset<T>(s: Seq<T>)
    requires
        s.len() > 0,
    ensures
        s.drop_last().to_multiset() == s.to_multiset().remove(s.last()),
        s.to_multiset() == s.drop_last().to_multiset().insert(s.last()),
{
    broadcast use group_to_multiset_ensures;
    broadcast use group_multiset_axioms;

    assert(s.drop_last().push(s.last()) =~= s);
    assert(s.drop_last().to_multiset().insert(s.last()).remove(s.last()) =~= s.drop_last().to_multiset());
}

/// Inserting into a sorted sequence keeps it sorted and adds the element.
proof fn lemma_insert_sorted<T>(s: Seq<T>, x: T, le: spec_fn(T, T) -> bool)
    requires
        total_order(le),
        sorted_by(s, le),
    ensures
        sorted_by(insert_sorted(s, x, le), le),
        insert_sorted(s, x, le).to_multiset() == s.to_multiset().insert(x),
    decreases s.len(),
{
    broadcast use group_to_multiset_ensures;
    broadcast use group_multiset_axioms;

    if s.len() == 0 {
        assert(seq![x] =~= Seq::<T>::empty().push(x));
    } else if le(s.last(), x) {
        assert forall|i: int, j: int| 0 <= i < j < s.len() + 1 implies le(
            #[trigger] s.push(x)[i],
            #[trigger] s.push(x)[j],
        ) by {
            if j == s.len() && i < s.len() - 1 {
                assert(le(s[i], s[s.len() - 1]));
            }
        }
    } else {
        let d = s.drop_last();
        let t = insert_sorted(d, x, le);
        lemma_insert_sorted(d, x, le);
        lemma_drop_last_multiset(s);
        assert(le(x, s.last()));
        assert forall|k: int| 0 <= k < t.len() implies le(#[trigger] t[k], s.last()) by {
            lemma_in_multiset(t, k);
            if t[k] != x {
                let i = lemma_from_multiset(d, t[k]);
                assert(le(s[i], s[s.len() - 1]));
            }
        }
        assert forall|i: int, j: int| 0 <= i < j < t.len() + 1 implies le(
            #[trigger] t.push(s.last())[i],
            #[trigger] t.push(s.last())[j],
        ) by {
            if j == t.len() {
                assert(le(t[i], s.last()));
            }
        }
        assert(t.push(s.last()).to_multiset() =~= s.to_multiset().insert(x));
    }
}

/// A sort gives a sorted sequence with the same elements.
pub proof fn lemma_sort_by<T>(s: Seq<T>, le: spec_fn(T, T) -> bool)
    requires
        total_order(le),
    ensures
        sorted_by(sort_by(s, le), le),
        sort_by(s, le).to_multiset() == s.to_multiset(),
    decreases s.len(),
{
    broadcast use group_to_multiset_ensures;

    if s.len() > 0 {
        lemma_sort_by(s.drop_last(), le);
        lemma_insert_sorted(sort_by(s.drop_last(), le), s.last(), le);
        lemma_drop_last_multiset(s);
    }
}

/// Two sorted sequences with the same elements are the same.
proof fn lemma_sorted_unique<T>(a: Seq<T>, b: Seq<T>, le: spec_fn(T, T) -> bool)
    requires
        total_order(le),
        sorted_by(a, le),
        sorted_by(b, le),
        a.to_multiset() == b.to_multiset(),
    ensures
        a == b,
    decreases a.len(),
{
    broadcast use group_to_multiset_ensures;

    to_multiset_len(a);
    to_multiset_len(b);
    assert(a.len() == b.len());
    if a.len() == 0 {
        assert(a =~= b);
    } else {
        let n = a.len() - 1;
        lemma_in_multiset(a, n);
        lemma_in_multiset(b, n);
        let i = lemma_from_multiset(b, a.last());
        let j = lemma_from_multiset(a, b.last());
        if i < n {
            assert(le(b[i], b[n]));
        }
        if j < n {
            assert(le(a[j], a[n]));
        }
        assert(a.last() == b.last());
        lemma_drop_last_multiset(a);
        lemma_drop_last_multiset(b);
        lemma_sorted_unique(a.drop_last(), b.drop_last(), le);
        assert(a =~= a.drop_last().push(a.last()));
        assert(b =~= b.drop_last().push(b.last()));
    }
}

/// Sorting sequences that hold the same elements gives the same sequence.
pub proof fn lemma_sort_by_permutation<T>(s1: Seq<T>, s2: Seq<T>, le: spec_fn(T, T) -> bool)
    requires
        total_order(le),
        s1.to_multiset() == s2.to_multiset(),
    ensures
        sort_by(s1, le) == sort_by(s2, le),
{
    lemma_sort_by(s1, le);
    lemma_sort_by(s2, le);
    lemma_sorted_unique(sort_by(s1, le), sort_by(s2, le), le);
}

/// Lexicographic order compares any two different strings one way only.
proof fn lemma_lex_lt_trichotomy(a: Seq<char>, b: Seq<char>)
    ensures
        a == b || lex_lt(a, b) || lex_lt(b, a),
        !(lex_lt(a, b) && lex_lt(b, a)),
        !lex_lt(a, a),
    decreases a.len(),
{
    if a.len() > 0 && b.len() > 0 {
        lemma_lex_lt_trichotomy(a.drop_first(), b.drop_first());
        if a[0] == b[0] && a.drop_first() == b.drop_first() {
            assert(a.len() == b.len());
            assert forall|k: int| 0 <= k < a.len() implies a[k] == b[k] by {
                if k > 0 {
                    assert(a[k] == a.drop_first()[k - 1]);
                    assert(b[k] == b.drop_first()[k - 1]);
                }
            }
            assert(a =~= b);
        }
        if a[0] != b[0] {
            char_u32_cast(a[0], a[0] as u32);
            char_u32_cast(b[0], b[0] as u32);
            assert(a[0] as u32 != b[0] as u32);
        }
    } else if a.len() == 0 && b.len() == 0 {
        assert(a =~= b);
    }
    if a.len() > 0 {
        lemma_lex_lt_trichotomy(a.drop_first(), a.drop_first());
    }
}

/// Lexicographic order is transitive.
proof fn lemma_lex_lt_transitive(a: Seq<char>, b: Seq<char>, c: Seq<char>)
    requires
        lex_lt(a, b),
        lex_lt(b, c),
    ensures
        lex_lt(a, c),
    decreases a.len(),
{
    if a.len() > 0 && b.len() > 0 && c.len() > 0 && a[0] == b[0] && b[0] == c[0] {
        lemma_lex_lt_transitive(a.drop_first(), b.drop_first(), c.drop_first());
    }
}

/// Lexicographic order of strings is a total order.
pub proof fn lemma_lex_total_order()
    ensures
        total_order(lex_le_fn()),
{
    let le = lex_le_fn();
    assert forall|a: Seq<char>, b: Seq<char>| #[trigger] le(a, b) || le(b, a) by {
        lemma_lex_lt_trichotomy(a, b);
    }
    assert forall|a: Seq<char>, b: Seq<char>, c: Seq<char>|
        #[trigger] le(a, b) && #[trigger] le(b, c) implies le(a, c) by {
        lemma_lex_lt_trichotomy(a, b);
        lemma_lex_lt_trichotomy(b, c);
        lemma_lex_lt_trichotomy(a, c);
        if lex_lt(c, a) {
            if lex_lt(a, b) {
                lemma_lex_lt_transitive(c, a, b);
            }
        }
    }
    assert forall|a: Seq<char>, b: Seq<char>| #[trigger] le(a, b) && #[trigger] le(b, a) implies a
        == b by {
        lemma_lex_lt_trichotomy(a, b);
    }
}

/// Filtering a concatenation filters each part.
pub proof fn lemma_filter_map_concat<A, B>(a: Seq<A>, b: Seq<A>, f: spec_fn(A) -> Option<B>)
    ensures
        filter_map(a + b, f) == filter_map(a, f) + filter_map(b, f),
    decreases b.len(),
{
    if b.len() == 0 {
        assert(a + b =~= a);
        assert(filter_map(a, f) + filter_map(b, f) =~= filter_map(a, f));
    } else {
        assert((a + b).drop_last() =~= a + b.drop_last());
        lemma_filter_map_concat(a, b.drop_last(), f);
        match f(b.last()) {
            Some(y) => {
                assert(filter_map(a, f) + filter_map(b.drop_last(), f).push(y) =~= (filter_map(
                    a,
                    f,
                ) + filter_map(b.drop_last(), f)).push(y));
            },
            None => {},
        }
    }
}

/// Filtering sequences that hold the same elements gives sequences that
/// hold the same elements.
pub proof fn lemma_filter_map_permutation<A, B>(
    s1: Seq<A>,
    s2: Seq<A>,
    f: spec_fn(A) -> Option<B>,
)
    requires
        s1.to_multiset() == s2.to_multiset(),
    ensures
        filter_map(s1, f).to_multiset() == filter_map(s2, f).to_multiset(),
    decreases s1.len(),
{
    broadcast use group_to_multiset_ensures;
    broadcast use group_multiset_axioms;

    if s1.len() == 0 {
        to_multiset_len(s1);
        to_multiset_len(s2);
        assert(s2.len() == 0);
        assert(s1 =~= s2);
    } else {
        let x = s1.last();
        let d = s1.drop_last();
        lemma_in_multiset(s1, s1.len() - 1);
        let i = lemma_from_multiset(s2, x);
        let p = s2.subrange(0, i);
        let q = s2.subrange(i + 1, s2.len() as int);
        let r = p + q;
        assert(s2 =~= p + (seq![x] + q));
        assert(r =~= s2.remove(i));
        lemma_drop_last_multiset(s1);
        lemma_filter_map_permutation(d, r, f);
        assert(s1 =~= d + seq![x]);
        lemma_filter_map_concat(d, seq![x], f);
        lemma_filter_map_concat(p, seq![x] + q, f);
        lemma_filter_map_concat(seq![x], q, f);
        lemma_filter_map_concat(p, q, f);
        lemma_multiset_commutative(filter_map(d, f), filter_map(seq![x], f));
        lemma_multiset_commutative(filter_map(p, f), filter_map(seq![x] + q, f));
        lemma_multiset_commutative(filter_map(seq![x], f), filter_map(q, f));
        lemma_multiset_commutative(filter_map(p, f), filter_map(q, f));
        assert(filter_map(s1, f).to_multiset() =~= filter_map(s2, f).to_multiset());
    }
}

/// Mapping is filtering that keeps every element.
pub proof fn lemma_map_values_filter_map<A, B>(s: Seq<A>, g: spec_fn(A) -> B)
    ensures
        s.map_values(g) == filter_map(s, |a: A| Some(g(a))),
    decreases s.len(),
{
    if s.len() > 0 {
        lemma_map_values_filter_map(s.drop_last(), g);
        assert(s.map_values(g) =~= s.drop_last().map_values(g).push(g(s.last())));
    } else {
        assert(s.map_values(g) =~= Seq::<B>::empty());
    }
}

} // verus!
