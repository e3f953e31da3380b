//! The canonical order of the lists of a document, and the stable sort
//! that establishes it.

use vstd::prelude::*;
use crate::text::views;

verus! {

/// What a list entry is ordered by: first the rank of its kind, then its name.
pub struct SortKey {
    pub rank: int,
    pub name: Seq<char>,
}

/// Whether `a` comes before `b` when texts are compared character by
/// character, by the positions of the characters in the code charts; a text
/// comes after each of its proper prefixes.
pub open spec fn text_lt(a: Seq<char>, b: Seq<char>) -> bool
    decreases a.len(),
{
    if b.len() == 0 {
        false
    } else if a.len() == 0 {
        true
    } else if a[0] != b[0] {
        (a[0] as int) < (b[0] as int)
    } else {
        text_lt(a.skip(1), b.skip(1))
    }
}

/// Whether an entry with the key `a` must come before one with the key `b`.
pub open spec fn key_lt(a: SortKey, b: SortKey) -> bool {
    a.rank < b.rank || (a.rank == b.rank && text_lt(a.name, b.name))
}

/// A view that has a place in the canonical order.
pub trait Keyed {
    spec fn sort_key(&self) -> SortKey;
}

/// A value whose view has a place in the canonical order.
pub trait Sortable: View + Sized where Self::V: Keyed {
    /// Whether this value must come before `other`.
    fn comes_before(&self, other: &Self) -> (r: bool)
        ensures
            r == key_lt(self@.sort_key(), other@.sort_key()),
    ;
}

/// `x` put into the ordered sequence `s`, behind every entry that need not
/// come after it.
pub open spec fn inserted<T: Keyed>(s: Seq<T>, x: T) -> Seq<T>
    decreases s.len(),
{
    if s.len() == 0 {
        seq![x]
    } else if key_lt(x.sort_key(), s.last().sort_key()) {
        inserted(s.drop_last(), x).push(s.last())
    } else {
        s.push(x)
    }
}

/// The entries of `s` in canonical order; entries that need not come one
/// before the other keep the order they have in `s`.
pub open spec fn sorted<T: Keyed>(s: Seq<T>) -> Seq<T>
    decreases s.len(),
{
    if s.len() == 0 {
        s
    } else {
        inserted(sorted(s.drop_last()), s.last())
    }
}

/// No text comes before itself.
pub proof fn lemma_text_lt_irreflexive(a: Seq<char>)
    ensures
        !text_lt(a, a),
    decreases a.len(),
{
    if a.len() > 0 {
        lemma_text_lt_irreflexive(a.skip(1));
    }
}

/// The order of texts is transitive.
pub proof fn lemma_text_lt_transitive(a: Seq<char>, b: Seq<char>, c: Seq<char>)
    requires
        text_lt(a, b),
        text_lt(b, c),
    ensures
        text_lt(a, c),
    decreases a.len(),
{
    if a.len() > 0 && b.len() > 0 && c.len() > 0 && a[0] == b[0] && b[0] == c[0] {
        lemma_text_lt_transitive(a.skip(1), b.skip(1), c.skip(1));
    }
}

/// Of two different texts, one comes before the other.
pub proof fn lemma_text_lt_connected(a: Seq<char>, b: Seq<char>)
    requires
        a != b,
    ensures
        text_lt(a, b) || text_lt(b, a),
    decreases a.len(),
{
    if a.len() > 0 && b.len() > 0 && a[0] == b[0] {
        if a.skip(1) == b.skip(1) {
            assert(a =~= seq![a[0]] + a.skip(1));
            assert(b =~= seq![b[0]] + b.skip(1));
        }
        lemma_text_lt_connected(a.skip(1), b.skip(1));
    } else if a.len() == 0 && b.len() == 0 {
        assert(a =~= b);
    }
}

/// Where `b` need not come after `a`, and `c` need not come after `b`, `c`
/// need not come after `a`.
pub proof fn lemma_key_order(a: SortKey, b: SortKey, c: SortKey)
    requires
        !key_lt(b, a),
        !key_lt(c, b),
    ensures
        !key_lt(c, a),
{
    if key_lt(c, a) {
        if a.rank == b.rank && b.rank == c.rank {
            if a.name == b.name {
            } else {
                lemma_text_lt_connected(a.name, b.name);
                lemma_text_lt_transitive(c.name, a.name, b.name);
            }
        }
    }
}

/// No key comes before itself, and of two keys at most one comes before
/// the other.
pub proof fn lemma_key_asymmetric(a: SortKey, b: SortKey)
    ensures
        !(key_lt(a, b) && key_lt(b, a)),
        !key_lt(a, a),
{
    lemma_text_lt_irreflexive(a.name);
    if key_lt(a, b) && key_lt(b, a) {
        lemma_text_lt_transitive(a.name, b.name, a.name);
    }
}

/// No entry of `s` must come before an earlier one.
pub open spec fn ordered<T: Keyed>(s: Seq<T>) -> bool {
    forall|i: int, j: int| 0 <= i < j < s.len() ==> !key_lt(#[trigger] s[j].sort_key(), #[trigger] s[i].sort_key())
}

/// Putting `x` into an ordered sequence places it at some position `p`
/// without touching the other entries, and leaves the sequence ordered:
/// every entry behind `x` must come after it, and the entry before it need not.
pub proof fn lemma_inserted<T: Keyed>(s: Seq<T>, x: T) -> (p: int)
    requires
        ordered(s),
    ensures
        0 <= p <= s.len(),
        inserted(s, x) == s.take(p).push(x) + s.skip(p),
        forall|i: int| p <= i < s.len() ==> key_lt(x.sort_key(), #[trigger] s[i].sort_key()),
        forall|i: int| 0 <= i < p ==> !key_lt(x.sort_key(), #[trigger] s[i].sort_key()),
        ordered(inserted(s, x)),
    decreases s.len(),
{
    let p;
    if s.len() == 0 {
        p = 0;
        assert(inserted(s, x) =~= s.take(0).push(x) + s.skip(0));
    } else if key_lt(x.sort_key(), s.last().sort_key()) {
        let head = s.drop_last();
        assert forall|i: int, j: int| 0 <= i < j < head.len() implies !key_lt(
            #[trigger] head[j].sort_key(),
            #[trigger] head[i].sort_key(),
        ) by {
            assert(head[i] == s[i] && head[j] == s[j]);
        }
        p = lemma_inserted(head, x);
        assert(inserted(s, x) =~= s.take(p).push(x) + s.skip(p)) by {
            assert(head.take(p) =~= s.take(p));
            assert(head.skip(p).push(s.last()) =~= s.skip(p));
        }
        assert forall|i: int| p <= i < s.len() implies key_lt(x.sort_key(), #[trigger] s[i].sort_key()) by {
            if i < head.len() {
                assert(head[i] == s[i]);
            }
        }
        assert forall|i: int| 0 <= i < p implies !key_lt(x.sort_key(), #[trigger] s[i].sort_key()) by {
            assert(head[i] == s[i]);
        }
    } else {
        p = s.len() as int;
        assert(inserted(s, x) =~= s.take(p).push(x) + s.skip(p)) by {
            assert(s.take(p) =~= s);
        }
        assert forall|i: int| 0 <= i < p implies !key_lt(x.sort_key(), #[trigger] s[i].sort_key()) by {
            if i < p - 1 {
                lemma_key_order(s[i].sort_key(), s[p - 1].sort_key(), x.sort_key());
            }
        }
    }
    let r = inserted(s, x);
    assert forall|i: int, j: int| 0 <= i < j < r.len() implies !key_lt(
        #[trigger] r[j].sort_key(),
        #[trigger] r[i].sort_key(),
    ) by {
        if j < p {
            assert(r[i] == s[i] && r[j] == s[j]);
        } else if j == p {
            assert(r[i] == s[i] && r[j] == x);
        } else if i < p {
            assert(r[i] == s[i] && r[j] == s[j - 1]);
        } else if i == p {
            assert(r[i] == x && r[j] == s[j - 1]);
            lemma_key_asymmetric(x.sort_key(), s[j - 1].sort_key());
        } else {
            assert(r[i] == s[i - 1] && r[j] == s[j - 1]);
        }
    }
    p
}

/// A sorted sequence is ordered, is as long as the sequence it came from,
/// and holds the same entries, each as often.
pub proof fn lemma_sorted<T: Keyed>(s: Seq<T>)
    ensures
        ordered(sorted(s)),
        sorted(s).len() == s.len(),
        sorted(s).to_multiset() == s.to_multiset(),
    decreases s.len(),
{
    broadcast use vstd::seq_lib::group_to_multiset_ensures;

    if s.len() > 0 {
        let head = s.drop_last();
        lemma_sorted(head);
        let h = sorted(head);
        let p = lemma_inserted(h, s.last());
        assert(s =~= head.push(s.last()));
        assert(s.to_multiset() == head.to_multiset().insert(s.last()));
        let r = sorted(s);
        assert(r == h.take(p).push(s.last()) + h.skip(p));
        assert(h =~= h.take(p) + h.skip(p));
        vstd::seq_lib::lemma_multiset_commutative(h.take(p), h.skip(p));
        vstd::seq_lib::lemma_multiset_commutative(h.take(p).push(s.last()), h.skip(p));
        assert(r.to_multiset() =~= h.to_multiset().insert(s.last()));
    }
}

/// Every entry of a sorted sequence is an entry of the sequence it came from.
pub proof fn lemma_sorted_entries<T: Keyed>(s: Seq<T>)
    ensures
        sorted(s).len() == s.len(),
        forall|k: int| 0 <= k < s.len() ==> exists|j: int| 0 <= j < s.len() && #[trigger] sorted(s)[k] == #[trigger] s[j],
    decreases s.len(),
{
    if s.len() > 0 {
        let head = s.drop_last();
        lemma_sorted_entries(head);
        lemma_sorted(head);
        let h = sorted(head);
        let p = lemma_inserted(h, s.last());
        let r = sorted(s);
        assert forall|k: int| 0 <= k < s.len() implies exists|j: int|
            0 <= j < s.len() && #[trigger] r[k] == #[trigger] s[j] by {
            if k < p {
                assert(r[k] == h[k]);
                let j = choose|j: int| 0 <= j < head.len() && h[k] == #[trigger] head[j];
                assert(r[k] == s[j]);
            } else if k == p {
                assert(r[k] == s[s.len() - 1]);
            } else {
                assert(r[k] == h[k - 1]);
                let j = choose|j: int| 0 <= j < head.len() && h[k - 1] == #[trigger] head[j];
                assert(r[k] == s[j]);
            }
        }
    }
}

/// `order` says where each entry of `r` stood in `s`: it names every
/// position of `s` once, and entries of which the earlier need not come
/// before the later stand in `r` as they stood in `s`.
pub open spec fn is_stable_order<T: Keyed>(s: Seq<T>, r: Seq<T>, order: Seq<int>) -> bool {
    &&& order.len() == s.len()
    &&& r.len() == s.len()
    &&& forall|k: int| 0 <= k < order.len() ==> 0 <= #[trigger] order[k] < s.len() && r[k] == s[order[k]]
    &&& forall|a: int, b: int| 0 <= a < b < order.len() ==> #[trigger] order[a] != #[trigger] order[b]
    &&& forall|a: int, b: int|
        0 <= a < b < order.len() && !key_lt(s[#[trigger] order[a]].sort_key(), s[#[trigger] order[b]].sort_key())
            ==> order[a] < order[b]
}

/// The sort is stable: the entries of a sorted sequence are the entries of
/// the sequence it came from, each taken once, and entries of which neither
/// must come before the other keep the order they had.
pub proof fn lemma_sorted_is_stable<T: Keyed>(s: Seq<T>) -> (order: Seq<int>)
    ensures
        is_stable_order(s, sorted(s), order),
    decreases s.len(),
{
    if s.len() == 0 {
        Seq::<int>::empty()
    } else {
        let head = s.drop_last();
        let x = s.last();
        let n = head.len() as int;
        let before = lemma_sorted_is_stable(head);
        lemma_sorted(head);
        let h = sorted(head);
        let p = lemma_inserted(h, x);
        let r = sorted(s);
        let order = before.take(p).push(n) + before.skip(p);
        assert(r == h.take(p).push(x) + h.skip(p));
        assert forall|k: int| 0 <= k < order.len() implies 0 <= #[trigger] order[k] < s.len() && r[k] == s[order[k]] by {
            if k < p {
                assert(order[k] == before[k]);
                assert(r[k] == h[k]);
                assert(head[before[k]] == s[before[k]]);
            } else if k == p {
                assert(order[k] == n);
            } else {
                assert(order[k] == before[k - 1]);
                assert(r[k] == h[k - 1]);
                assert(head[before[k - 1]] == s[before[k - 1]]);
            }
        }
        assert forall|a: int, b: int| 0 <= a < b < order.len() implies #[trigger] order[a] != #[trigger] order[b] by {
            let ia = if a < p { a } else { a - 1 };
            let ib = if b < p { b } else { b - 1 };
            if a != p && b != p {
                assert(order[a] == before[ia] && order[b] == before[ib]);
            } else if a == p {
                assert(order[b] == before[ib]);
            } else {
                assert(order[a] == before[ia]);
            }
        }
        assert forall|a: int, b: int|
            0 <= a < b < order.len() && !key_lt(
                s[#[trigger] order[a]].sort_key(),
                s[#[trigger] order[b]].sort_key(),
            ) implies order[a] < order[b] by {
            let ia = if a < p { a } else { a - 1 };
            let ib = if b < p { b } else { b - 1 };
            if a != p && b != p {
                assert(order[a] == before[ia] && order[b] == before[ib]);
                assert(head[before[ia]] == s[before[ia]]);
                assert(head[before[ib]] == s[before[ib]]);
            } else if a == p {
                assert(order[b] == before[ib]);
                assert(h[ib] == head[before[ib]]);
                assert(head[before[ib]] == s[before[ib]]);
                assert(key_lt(x.sort_key(), h[ib].sort_key()));
            } else {
                assert(order[a] == before[ia]);
            }
        }
        order
    }
}

/// Sorting leaves an ordered sequence as it is.
pub proof fn lemma_ordered_is_sorted<T: Keyed>(s: Seq<T>)
    requires
        ordered(s),
    ensures
        sorted(s) == s,
    decreases s.len(),
{
    if s.len() > 0 {
        let head = s.drop_last();
        assert forall|i: int, j: int| 0 <= i < j < head.len() implies !key_lt(
            #[trigger] head[j].sort_key(),
            #[trigger] head[i].sort_key(),
        ) by {
            assert(head[i] == s[i] && head[j] == s[j]);
        }
        lemma_ordered_is_sorted(head);
        if head.len() > 0 {
            assert(head.last() == s[s.len() - 2]);
            assert(s.last() == s[s.len() - 1]);
        }
        assert(inserted(head, s.last()) =~= s);
    }
}

/// Sorting twice is sorting once.
pub proof fn lemma_sorted_twice<T: Keyed>(s: Seq<T>)
    ensures
        sorted(sorted(s)) == sorted(s),
{
    lemma_sorted(s);
    lemma_ordered_is_sorted(sorted(s));
}

/// Comparing two texts is comparing what is left of them behind a common
/// prefix.
proof fn lemma_text_lt_skips(a: Seq<char>, b: Seq<char>, n: int)
    requires
        0 <= n <= a.len(),
        n <= b.len(),
        forall|k: int| 0 <= k < n ==> a[k] == b[k],
    ensures
        text_lt(a, b) == text_lt(a.skip(n), b.skip(n)),
    decreases n,
{
    if n > 0 {
        assert(a.skip(1).skip(n - 1) =~= a.skip(n));
        assert(b.skip(1).skip(n - 1) =~= b.skip(n));
        assert forall|k: int| 0 <= k < n - 1 implies a.skip(1)[k] == b.skip(1)[k] by {
            assert(a[k + 1] == b[k + 1]);
        }
        lemma_text_lt_skips(a.skip(1), b.skip(1), n - 1);
    } else {
        assert(a.skip(0) =~= a);
        assert(b.skip(0) =~= b);
    }
}

/// Whether the text `a` comes before the text `b`.
pub fn text_before(a: &str, b: &str) -> (r: bool)
    ensures
        r == text_lt(a@, b@),
{
    let na = a.unicode_len();
    let nb = b.unicode_len();
    let mut i: usize = 0;
    while i < na && i < nb
        invariant
            i <= na,
            i <= nb,
            na == a@.len(),
            nb == b@.len(),
            forall|k: int| 0 <= k < i ==> a@[k] == b@[k],
        decreases na - i,
    {
        let x = a.get_char(i);
        let y = b.get_char(i);
        if x != y {
            proof {
                lemma_text_lt_skips(a@, b@, i as int);
                assert(a@.skip(i as int)[0] == x);
                assert(b@.skip(i as int)[0] == y);
            }
            return (x as u32) < (y as u32);
        }
        i += 1;
    }
    proof {
        lemma_text_lt_skips(a@, b@, i as int);
        if i < nb {
            assert(a@.skip(i as int).len() == 0);
        } else {
            assert(b@.skip(i as int).len() == 0);
        }
    }
    i < nb
}

/// Sorts a vector into canonical order, stably.
pub fn sort_stable<T: Sortable>(v: Vec<T>) -> (r: Vec<T>) where T::V: Keyed
    ensures
        views(r@) == sorted(views(v@)),
{
    let ghost all = views(v@);
    let mut rest = v;
    let mut out: Vec<T> = Vec::new();
    let mut pending: Vec<T> = Vec::new();
    // The entries are taken from the back, so they are turned round first.
    while rest.len() > 0
        invariant
            views(rest@) + views(pending@).reverse() == all,
        decreases rest@.len(),
    {
        let ghost r0 = views(rest@);
        let ghost p0 = views(pending@);
        match rest.pop() {
            Some(x) => {
                pending.push(x);
                assert(views(pending@) =~= p0.push(x@));
                assert(views(rest@) =~= r0.drop_last());
                assert(views(pending@).reverse() =~= seq![x@] + p0.reverse());
                assert(views(rest@) + views(pending@).reverse() =~= r0 + p0.reverse());
            },
            None => {},
        }
    }
    assert(views(pending@).reverse() =~= all);
    let ghost total = all.len() as int;
    assert(views(out@) =~= sorted(all.take(0))) by {
        assert(all.take(0) =~= Seq::<T::V>::empty());
    }
    while pending.len() > 0
        invariant
            total == all.len(),
            out@.len() + pending@.len() == total,
            forall|k: int| 0 <= k < pending@.len() ==> (#[trigger] pending@[k])@ == all[total - 1 - k],
            views(out@) == sorted(all.take(out@.len() as int)),
        decreases pending@.len(),
    {
        let ghost done = out@.len() as int;
        let ghost before = views(out@);
        match pending.pop() {
            Some(x) => {
                assert(x@ == all[done]);
                assert(all.take(done + 1).drop_last() =~= all.take(done));
                assert(all.take(done + 1).last() == x@);
                // Find the place of `x` from the back.
                let mut at: usize = out.len();
                proof {
                    assert(before.take(done) =~= before);
                    assert(before.skip(done) =~= Seq::<T::V>::empty());
                    assert(inserted(before, x@) + Seq::<T::V>::empty() =~= inserted(before, x@));
                }
                while at > 0 && x.comes_before(&out[at - 1])
                    invariant
                        at <= out@.len(),
                        out@.len() == done,
                        before == views(out@),
                        inserted(before, x@) == inserted(before.take(at as int), x@) + before.skip(at as int),
                    decreases at,
                {
                    proof {
                        let head = before.take(at as int);
                        assert(head.last() == before[at - 1]);
                        assert(head.drop_last() =~= before.take(at - 1));
                        assert(inserted(head, x@) == inserted(head.drop_last(), x@).push(head.last()));
                        assert(inserted(head.drop_last(), x@).push(head.last()) + before.skip(at as int)
                            =~= inserted(before.take(at - 1), x@) + before.skip(at - 1));
                    }
                    at = at - 1;
                }
                proof {
                    let head = before.take(at as int);
                    if at > 0 {
                        assert(head.last() == before[at - 1]);
                    }
                    assert(inserted(head, x@) == head.push(x@));
                }
                out.insert(at, x);
                assert(views(out@) =~= before.take(at as int).push(x@) + before.skip(at as int));
            },
            None => {},
        }
    }
    assert(all.take(total) =~= all);
    out
}

} // verus!
