//! Stable descending ordering of language summaries by a chosen count
//! field. The sort is characterized exactly: the result of
//! [`sort_summaries`] is [`sort_desc`], which is proved to be sorted
//! ([`lemma_sort_desc_sorted`]) and stable — for every key value, the
//! subsequence of summaries with that key is left untouched
//! ([`lemma_sort_desc_stable`]); together these pin the output uniquely.

use vstd::prelude::*;
use crate::stats::{LanguageSummary, SortKey};

verus! {

/// The sort key value of a summary under `k`.
pub open spec fn key_of(l: LanguageSummary, k: SortKey) -> int {
    match k {
        SortKey::Code => l.code as int,
        SortKey::Files => l.file_count as int,
        SortKey::Comments => l.comments as int,
        SortKey::Blanks => l.blanks as int,
        SortKey::Total => l.total as int,
    }
}

/// Nonincreasing key order.
pub open spec fn sorted_desc(s: Seq<LanguageSummary>, k: SortKey) -> bool {
    forall|i: int, j: int| 0 <= i <= j < s.len() ==> key_of(s[i], k) >= key_of(s[j], k)
}

/// The test "has key value `c` under `k`".
pub open spec fn key_is(k: SortKey, c: int) -> spec_fn(LanguageSummary) -> bool {
    |l: LanguageSummary| key_of(l, k) == c
}

/// Inserts `x` into `s` after every element whose key is at least `x`'s,
/// so that an element equal in key to `x` keeps its earlier position.
pub open spec fn insert_desc(s: Seq<LanguageSummary>, x: LanguageSummary, k: SortKey) -> Seq<
    LanguageSummary,
>
    decreases s.len(),
{
    if s.len() == 0 {
        seq![x]
    } else if key_of(s.last(), k) >= key_of(x, k) {
        s.push(x)
    } else {
        insert_desc(s.drop_last(), x, k).push(s.last())
    }
}

/// Stable descending insertion sort: elements are inserted left to
/// right, each behind its equals.
pub open spec fn sort_desc(s: Seq<LanguageSummary>, k: SortKey) -> Seq<LanguageSummary>
    decreases s.len(),
{
    if s.len() == 0 {
        Seq::<LanguageSummary>::empty()
    } else {
        insert_desc(sort_desc(s.drop_last(), k), s.last(), k)
    }
}

/// Where the downward scan of the insertion stops, the spec insertion
/// lands at exactly that index.
proof fn lemma_insert_desc_at(s: Seq<LanguageSummary>, x: LanguageSummary, k: SortKey, j: int)
    requires
        0 <= j <= s.len(),
        forall|m: int| j <= m < s.len() ==> key_of(#[trigger] s[m], k) < key_of(x, k),
        j > 0 ==> key_of(s[j - 1], k) >= key_of(x, k),
    ensures
        insert_desc(s, x, k) == s.insert(j, x),
    decreases s.len(),
{
    if s.len() == 0 {
        assert(insert_desc(s, x, k) =~= s.insert(0, x));
    } else if j == s.len() {
        assert(key_of(s.last(), k) >= key_of(x, k));
        assert(insert_desc(s, x, k) =~= s.insert(j, x));
    } else {
        assert(key_of(s.last(), k) < key_of(x, k));
        lemma_insert_desc_at(s.drop_last(), x, k, j);
        assert(insert_desc(s.drop_last(), x, k).push(s.last()) =~= s.insert(j, x));
    }
}

/// A lower bound on every key in `s` that also bounds `x`'s key bounds
/// every key of the insertion result.
proof fn lemma_insert_desc_bound(
    s: Seq<LanguageSummary>,
    x: LanguageSummary,
    k: SortKey,
    b: int,
)
    requires
        forall|i: int| 0 <= i < s.len() ==> key_of(#[trigger] s[i], k) >= b,
        key_of(x, k) >= b,
    ensures
        forall|i: int|
            0 <= i < insert_desc(s, x, k).len() ==> key_of(
                #[trigger] insert_desc(s, x, k)[i],
                k,
            ) >= b,
    decreases s.len(),
{
    let r = insert_desc(s, x, k);
    if s.len() == 0 {
        assert(r[0] == x);
    } else if key_of(s.last(), k) >= key_of(x, k) {
        assert forall|i: int| 0 <= i < r.len() implies key_of(#[trigger] r[i], k) >= b by {
            if i < s.len() {
                assert(r[i] == s[i]);
            } else {
                assert(r[i] == x);
            }
        }
    } else {
        assert forall|i: int| 0 <= i < s.drop_last().len() implies key_of(
            #[trigger] s.drop_last()[i],
            k,
        ) >= b by {
            assert(s.drop_last()[i] == s[i]);
        }
        lemma_insert_desc_bound(s.drop_last(), x, k, b);
        let t = insert_desc(s.drop_last(), x, k);
        assert forall|i: int| 0 <= i < r.len() implies key_of(#[trigger] r[i], k) >= b by {
            if i < t.len() {
                assert(r[i] == t[i]);
            } else {
                assert(r[i] == s.last());
                assert(key_of(s[s.len() - 1], k) >= b);
            }
        }
    }
}

/// Inserting into a sorted sequence keeps it sorted.
pub proof fn lemma_insert_desc_sorted(s: Seq<LanguageSummary>, x: LanguageSummary, k: SortKey)
    requires
        sorted_desc(s, k),
    ensures
        sorted_desc(insert_desc(s, x, k), k),
    decreases s.len(),
{
    if s.len() == 0 {
    } else if key_of(s.last(), k) >= key_of(x, k) {
        assert forall|i: int, j: int|
            0 <= i <= j < s.push(x).len() implies key_of(s.push(x)[i], k) >= key_of(
            s.push(x)[j],
            k,
        ) by {
            if j < s.len() {
            } else {
                if i < s.len() {
                    assert(key_of(s[i], k) >= key_of(s.last(), k));
                }
            }
        }
    } else {
        assert(sorted_desc(s.drop_last(), k));
        lemma_insert_desc_sorted(s.drop_last(), x, k);
        let t = insert_desc(s.drop_last(), x, k);
        assert forall|i: int| 0 <= i < s.drop_last().len() implies key_of(
            #[trigger] s.drop_last()[i],
            k,
        ) >= key_of(s.last(), k) by {
            assert(s.drop_last()[i] == s[i]);
        }
        lemma_insert_desc_bound(s.drop_last(), x, k, key_of(s.last(), k));
        assert forall|i: int, j: int|
            0 <= i <= j < t.push(s.last()).len() implies key_of(t.push(s.last())[i], k) >= key_of(
            t.push(s.last())[j],
            k,
        ) by {
            if j < t.len() {
            } else {
                if i < t.len() {
                    assert(key_of(t[i], k) >= key_of(s.last(), k));
                }
            }
        }
    }
}

/// The result of the stable sort is sorted (descending) under `k`.
pub proof fn lemma_sort_desc_sorted(s: Seq<LanguageSummary>, k: SortKey)
    ensures
        sorted_desc(sort_desc(s, k), k),
    decreases s.len(),
{
    if s.len() > 0 {
        lemma_sort_desc_sorted(s.drop_last(), k);
        lemma_insert_desc_sorted(sort_desc(s.drop_last(), k), s.last(), k);
    }
}

/// How insertion acts on one key class: `x` joins the end of its own
/// class, and every other class is untouched.
proof fn lemma_insert_desc_filter(
    s: Seq<LanguageSummary>,
    x: LanguageSummary,
    k: SortKey,
    c: int,
)
    ensures
        insert_desc(s, x, k).filter(key_is(k, c)) == if key_of(x, k) == c {
            s.filter(key_is(k, c)).push(x)
        } else {
            s.filter(key_is(k, c))
        },
    decreases s.len(),
{
    reveal(Seq::filter);
    let pred = key_is(k, c);
    if s.len() == 0 {
        assert(insert_desc(s, x, k) =~= seq![x]);
        assert(seq![x].drop_last() =~= Seq::<LanguageSummary>::empty());
        assert(Seq::<LanguageSummary>::empty().filter(pred) =~= Seq::<
            LanguageSummary,
        >::empty());
        if key_of(x, k) == c {
            assert(seq![x].filter(pred) =~= s.filter(pred).push(x));
        } else {
            assert(seq![x].filter(pred) =~= s.filter(pred));
        }
    } else if key_of(s.last(), k) >= key_of(x, k) {
        assert(s.push(x).drop_last() =~= s);
        assert(s.push(x).last() == x);
    } else {
        lemma_insert_desc_filter(s.drop_last(), x, k, c);
        let t = insert_desc(s.drop_last(), x, k);
        assert(t.push(s.last()).drop_last() =~= t);
        assert(t.push(s.last()).last() == s.last());
        // key_of(s.last(), k) < key_of(x, k): the last element and x are
        // never in the same class.
        if key_of(x, k) == c {
            assert(!pred(s.last()));
            assert(t.filter(pred) == s.drop_last().filter(pred).push(x));
            assert(s.filter(pred) == s.drop_last().filter(pred));
        } else {
            assert(t.filter(pred) == s.drop_last().filter(pred));
        }
    }
}

/// Stability of the sort: for every key value `c`, the subsequence of
/// summaries whose key is `c` comes out of the sort exactly as it went
/// in — summaries tied on the sort field keep their original relative
/// order.
pub proof fn lemma_sort_desc_stable(s: Seq<LanguageSummary>, k: SortKey, c: int)
    ensures
        sort_desc(s, k).filter(key_is(k, c)) == s.filter(key_is(k, c)),
    decreases s.len(),
{
    reveal(Seq::filter);
    let pred = key_is(k, c);
    if s.len() == 0 {
        assert(sort_desc(s, k) =~= s);
    } else {
        lemma_sort_desc_stable(s.drop_last(), k, c);
        lemma_insert_desc_filter(sort_desc(s.drop_last(), k), s.last(), k, c);
    }
}

proof fn lemma_filter_empty(s: Seq<LanguageSummary>, pred: spec_fn(LanguageSummary) -> bool)
    requires
        forall|m: int| 0 <= m < s.len() ==> !pred(#[trigger] s[m]),
    ensures
        s.filter(pred) == Seq::<LanguageSummary>::empty(),
    decreases s.len(),
{
    reveal(Seq::filter);
    if s.len() == 0 {
        assert(s.filter(pred) =~= Seq::<LanguageSummary>::empty());
    } else {
        assert forall|m: int| 0 <= m < s.drop_last().len() implies !pred(
            #[trigger] s.drop_last()[m],
        ) by {
            assert(s.drop_last()[m] == s[m]);
        }
        lemma_filter_empty(s.drop_last(), pred);
        assert(!pred(s[s.len() - 1]));
    }
}

proof fn lemma_filter_single(s: Seq<LanguageSummary>, pred: spec_fn(LanguageSummary) -> bool, i: int)
    requires
        0 <= i < s.len(),
        forall|m: int| 0 <= m < s.len() ==> (pred(#[trigger] s[m]) <==> m == i),
    ensures
        s.filter(pred) == seq![s[i]],
    decreases s.len(),
{
    reveal(Seq::filter);
    if i == s.len() - 1 {
        assert forall|m: int| 0 <= m < s.drop_last().len() implies !pred(
            #[trigger] s.drop_last()[m],
        ) by {
            assert(s.drop_last()[m] == s[m]);
        }
        lemma_filter_empty(s.drop_last(), pred);
        assert(pred(s.last()));
        assert(s.filter(pred) =~= seq![s[i]]);
    } else {
        assert forall|m: int| 0 <= m < s.drop_last().len() implies (pred(
            #[trigger] s.drop_last()[m],
        ) <==> m == i) by {
            assert(s.drop_last()[m] == s[m]);
        }
        lemma_filter_single(s.drop_last(), pred, i);
        assert(!pred(s[s.len() - 1]));
    }
}

proof fn lemma_filter_pair(
    s: Seq<LanguageSummary>,
    pred: spec_fn(LanguageSummary) -> bool,
    i: int,
    j: int,
)
    requires
        0 <= i < j < s.len(),
        forall|m: int| 0 <= m < s.len() ==> (pred(#[trigger] s[m]) <==> (m == i || m == j)),
    ensures
        s.filter(pred) == seq![s[i], s[j]],
    decreases s.len(),
{
    reveal(Seq::filter);
    if j == s.len() - 1 {
        assert forall|m: int| 0 <= m < s.drop_last().len() implies (pred(
            #[trigger] s.drop_last()[m],
        ) <==> m == i) by {
            assert(s.drop_last()[m] == s[m]);
        }
        lemma_filter_single(s.drop_last(), pred, i);
        assert(pred(s.last()));
        assert(s.filter(pred) =~= seq![s[i], s[j]]);
    } else {
        assert forall|m: int| 0 <= m < s.drop_last().len() implies (pred(
            #[trigger] s.drop_last()[m],
        ) <==> (m == i || m == j)) by {
            assert(s.drop_last()[m] == s[m]);
        }
        lemma_filter_pair(s.drop_last(), pred, i, j);
        assert(!pred(s[s.len() - 1]));
    }
}

/// The pairwise reading of stability: when exactly two summaries are
/// tied on the sort field, the sorted listing holds them in their
/// original relative order — the earlier one still first.
pub proof fn lemma_two_tied_keep_order(s: Seq<LanguageSummary>, k: SortKey, i: int, j: int)
    requires
        0 <= i < j < s.len(),
        key_of(s[i], k) == key_of(s[j], k),
        forall|m: int|
            0 <= m < s.len() && key_of(#[trigger] s[m], k) == key_of(s[i], k) ==> (m == i || m
                == j),
    ensures
        sort_desc(s, k).filter(key_is(k, key_of(s[i], k))) == seq![s[i], s[j]],
{
    let c = key_of(s[i], k);
    let pred = key_is(k, c);
    lemma_sort_desc_stable(s, k, c);
    assert forall|m: int| 0 <= m < s.len() implies (pred(#[trigger] s[m]) <==> (m == i || m
        == j)) by {}
    lemma_filter_pair(s, pred, i, j);
}

/// The key the summaries are compared by.
fn key_value(l: &LanguageSummary, k: SortKey) -> (r: u64)
    ensures
        r as int == key_of(*l, k),
{
    match k {
        SortKey::Code => l.code,
        SortKey::Files => l.file_count,
        SortKey::Comments => l.comments,
        SortKey::Blanks => l.blanks,
        SortKey::Total => l.total,
    }
}

/// Inserts `x` behind every summary whose key is at least `x`'s.
fn insert_sorted(out: &mut Vec<LanguageSummary>, x: LanguageSummary, k: SortKey)
    ensures
        final(out)@ == insert_desc(old(out)@, x, k),
{
    let kx = key_value(&x, k);
    let mut j: usize = out.len();
    while j > 0 && key_value(&out[j - 1], k) < kx
        invariant
            j <= out@.len(),
            kx as int == key_of(x, k),
            forall|m: int| j <= m < out@.len() ==> key_of(#[trigger] out@[m], k) < key_of(x, k),
        decreases j,
    {
        j = j - 1;
    }
    proof {
        lemma_insert_desc_at(out@, x, k, j as int);
    }
    out.insert(j, x);
}

/// Sorts the summaries by `k`, descending and stable: see
/// [`lemma_sort_desc_sorted`] and [`lemma_sort_desc_stable`] for the two
/// halves of what [`sort_desc`] guarantees.
pub fn sort_summaries(v: Vec<LanguageSummary>, k: SortKey) -> (r: Vec<LanguageSummary>)
    ensures
        r@ == sort_desc(v@, k),
{
    let ghost orig: Seq<LanguageSummary> = v@;
    let mut rest = v;
    let mut out: Vec<LanguageSummary> = Vec::new();
    proof {
        assert(orig.skip(0) =~= orig);
        assert(orig.take(0) =~= Seq::<LanguageSummary>::empty());
    }
    while rest.len() > 0
        invariant
            rest@.len() <= orig.len(),
            rest@ == orig.skip(orig.len() - rest@.len()),
            out@ == sort_desc(orig.take(orig.len() - rest@.len()), k),
        decreases rest@.len(),
    {
        let ghost i: int = orig.len() - rest@.len();
        proof {
            assert(rest@[0] == orig[i]);
        }
        let x = rest.remove(0);
        insert_sorted(&mut out, x, k);
        proof {
            assert(orig.take(i + 1).drop_last() =~= orig.take(i));
            assert(orig.take(i + 1).last() == orig[i]);
            assert(rest@ =~= orig.skip(i + 1));
        }
    }
    proof {
        assert(orig.take(orig.len() as int) =~= orig);
    }
    out
}

} // verus!
