//! Stable sorting: by an integer key, largest first, and by keys of a rank
//! and a text; with the laws the sorted results obey.
use vstd::prelude::*;
use vstd::multiset::Multiset;

verus! {

/// `s` (sorted by descending key) with `x` put after every element whose
/// key is at least `key(x)`.
pub open spec fn insert_desc<A>(s: Seq<A>, x: A, key: spec_fn(A) -> int) -> Seq<A>
    decreases s.len(),
{
    if s.len() == 0 {
        seq![x]
    } else if key(s.last()) >= key(x) {
        s.push(x)
    } else {
        insert_desc(s.drop_last(), x, key).push(s.last())
    }
}

/// The stable sort of `s` by descending key: what `sort_by_key` with
/// `Reverse(key)` produces.
pub open spec fn sort_desc<A>(s: Seq<A>, key: spec_fn(A) -> int) -> Seq<A>
    decreases s.len(),
{
    if s.len() == 0 {
        Seq::empty()
    } else {
        insert_desc(sort_desc(s.drop_last(), key), s.last(), key)
    }
}

/// Inserting after the last element whose key is at least `key(x)`.
proof fn lemma_insert_desc_at<A>(s: Seq<A>, x: A, key: spec_fn(A) -> int, j: int)
    requires
        0 <= j <= s.len(),
        j == 0 || key(s[j - 1]) >= key(x),
        forall|k: int| j <= k < s.len() ==> key(#[trigger] s[k]) < key(x),
    ensures
        insert_desc(s, x, key) == s.take(j).push(x) + s.skip(j),
    decreases s.len(),
{
    if s.len() == 0 {
        assert(s.take(j).push(x) + s.skip(j) =~= seq![x]);
    } else if j == s.len() {
        assert(s.take(j).push(x) + s.skip(j) =~= s.push(x));
    } else {
        assert(key(s.last()) < key(x));
        lemma_insert_desc_at(s.drop_last(), x, key, j);
        assert(s.drop_last().take(j) =~= s.take(j));
        assert((s.drop_last().take(j).push(x) + s.drop_last().skip(j)).push(s.last())
            =~= s.take(j).push(x) + s.skip(j));
    }
}

/// Sorts `items` stably by descending key; `keys` holds each item's key.
pub(crate) fn stable_sort_desc<T>(items: Vec<T>, keys: Vec<i128>, Ghost(key): Ghost<spec_fn(T) -> int>) -> (r: Vec<T>)
    requires
        items@.len() == keys@.len(),
        forall|i: int| 0 <= i < items@.len() ==> keys@[i] == key(#[trigger] items@[i]),
    ensures
        r@ == sort_desc(items@, key),
{
    let ghost orig = items@;
    let mut rest = items;
    let mut rest_keys = keys;
    let mut out: Vec<T> = Vec::new();
    let mut out_keys: Vec<i128> = Vec::new();
    let mut i: usize = 0;
    let n = rest.len();
    assert(orig.take(0) =~= Seq::<T>::empty());
    assert(orig.skip(0) =~= orig);
    while rest.len() > 0
        invariant
            n == orig.len(),
            i + rest@.len() == n,
            rest@ == orig.skip(i as int),
            rest_keys@.len() == rest@.len(),
            forall|k: int| 0 <= k < rest@.len() ==> rest_keys@[k] == key(#[trigger] rest@[k]),
            out@ == sort_desc(orig.take(i as int), key),
            out_keys@.len() == out@.len(),
            forall|k: int| 0 <= k < out@.len() ==> out_keys@[k] == key(#[trigger] out@[k]),
        decreases rest@.len(),
    {
        let x = rest.remove(0);
        let kx = rest_keys.remove(0);
        proof {
            assert(kx == key(x));
            assert(orig.take(i + 1).drop_last() =~= orig.take(i as int));
            assert(orig.take(i + 1).last() == x);
            assert(rest@ =~= orig.skip(i + 1));
        }
        let mut j = out.len();
        while j > 0 && out_keys[j - 1] < kx
            invariant
                j <= out@.len(),
                out_keys@.len() == out@.len(),
                forall|k: int| 0 <= k < out@.len() ==> out_keys@[k] == key(#[trigger] out@[k]),
                forall|k: int| j <= k < out@.len() ==> key(#[trigger] out@[k]) < kx,
            decreases j,
        {
            j = j - 1;
        }
        proof {
            lemma_insert_desc_at(out@, x, key, j as int);
            assert(out@.insert(j as int, x) =~= out@.take(j as int).push(x) + out@.skip(j as int));
        }
        let ghost prev_out = out@;
        let ghost prev_keys = out_keys@;
        out.insert(j, x);
        out_keys.insert(j, kx);
        proof {
            assert forall|k: int| 0 <= k < out@.len() implies out_keys@[k] == key(#[trigger] out@[k]) by {
                if k < j {
                    assert(out@[k] == prev_out[k]);
                } else if k > j {
                    assert(out@[k] == prev_out[k - 1]);
                    assert(out_keys@[k] == prev_keys[k - 1]);
                }
            }
        }
        i = i + 1;
    }
    assert(orig.take(n as int) =~= orig);
    out
}


proof fn lemma_insert_desc_map<A, B>(s: Seq<A>, x: A, ka: spec_fn(A) -> int, f: spec_fn(A) -> B, kb: spec_fn(B) -> int)
    requires
        forall|a: A| #[trigger] kb(f(a)) == ka(a),
    ensures
        insert_desc(s, x, ka).map_values(f) == insert_desc(s.map_values(f), f(x), kb),
    decreases s.len(),
{
    if s.len() == 0 {
        assert(seq![x].map_values(f) =~= seq![f(x)]);
    } else {
        assert(s.map_values(f).last() == f(s.last()));
        assert(s.map_values(f).drop_last() =~= s.drop_last().map_values(f));
        if ka(s.last()) >= ka(x) {
            assert(s.push(x).map_values(f) =~= s.map_values(f).push(f(x)));
        } else {
            lemma_insert_desc_map(s.drop_last(), x, ka, f, kb);
            assert(insert_desc(s.drop_last(), x, ka).push(s.last()).map_values(f) =~= insert_desc(
                s.drop_last(),
                x,
                ka,
            ).map_values(f).push(f(s.last())));
        }
    }
}

/// Sorting and then mapping equals mapping and then sorting, when the map
/// keeps the key.
pub proof fn lemma_sort_desc_map<A, B>(s: Seq<A>, ka: spec_fn(A) -> int, f: spec_fn(A) -> B, kb: spec_fn(B) -> int)
    requires
        forall|a: A| #[trigger] kb(f(a)) == ka(a),
    ensures
        sort_desc(s, ka).map_values(f) == sort_desc(s.map_values(f), kb),
    decreases s.len(),
{
    if s.len() == 0 {
        assert(Seq::<A>::empty().map_values(f) =~= Seq::<B>::empty());
        assert(s.map_values(f) =~= Seq::<B>::empty());
    } else {
        lemma_sort_desc_map(s.drop_last(), ka, f, kb);
        assert(s.map_values(f).drop_last() =~= s.drop_last().map_values(f));
        assert(s.map_values(f).last() == f(s.last()));
        lemma_insert_desc_map(sort_desc(s.drop_last(), ka), s.last(), ka, f, kb);
    }
}


proof fn lemma_insert_desc_all<A>(s: Seq<A>, x: A, key: spec_fn(A) -> int, p: spec_fn(A) -> bool)
    requires
        forall|k: int| 0 <= k < s.len() ==> p(#[trigger] s[k]),
        p(x),
    ensures
        forall|k: int| 0 <= k < insert_desc(s, x, key).len() ==> p(#[trigger] insert_desc(s, x, key)[k]),
        insert_desc(s, x, key).len() == s.len() + 1,
    decreases s.len(),
{
    if s.len() > 0 && key(s.last()) < key(x) {
        lemma_insert_desc_all(s.drop_last(), x, key, p);
        let t = insert_desc(s.drop_last(), x, key);
        assert forall|k: int| 0 <= k < t.push(s.last()).len() implies p(#[trigger] t.push(s.last())[k]) by {
            if k < t.len() {
                assert(t.push(s.last())[k] == t[k]);
            }
        }
    }
}

/// A property of every element holds of every element of the sorted sequence.
pub proof fn lemma_sort_desc_all<A>(s: Seq<A>, key: spec_fn(A) -> int, p: spec_fn(A) -> bool)
    requires
        forall|k: int| 0 <= k < s.len() ==> p(#[trigger] s[k]),
    ensures
        forall|k: int| 0 <= k < sort_desc(s, key).len() ==> p(#[trigger] sort_desc(s, key)[k]),
        sort_desc(s, key).len() == s.len(),
    decreases s.len(),
{
    if s.len() > 0 {
        assert forall|k: int| 0 <= k < s.drop_last().len() implies p(#[trigger] s.drop_last()[k]) by {
            assert(s.drop_last()[k] == s[k]);
        }
        lemma_sort_desc_all(s.drop_last(), key, p);
        assert(p(s[s.len() - 1]));
        lemma_insert_desc_all(sort_desc(s.drop_last(), key), s.last(), key, p);
    }
}


/// Inserting into a sequence sorted by descending key keeps it sorted.
proof fn lemma_insert_desc_sorted<A>(s: Seq<A>, x: A, key: spec_fn(A) -> int)
    requires
        forall|i: int, j: int| 0 <= i < j < s.len() ==> key(#[trigger] s[i]) >= key(#[trigger] s[j]),
    ensures
        forall|i: int, j: int| 0 <= i < j < insert_desc(s, x, key).len()
            ==> key(#[trigger] insert_desc(s, x, key)[i]) >= key(#[trigger] insert_desc(s, x, key)[j]),
    decreases s.len(),
{
    let r = insert_desc(s, x, key);
    if s.len() == 0 {
    } else if key(s.last()) >= key(x) {
        assert forall|i: int, j: int| 0 <= i < j < r.len() implies key(#[trigger] r[i]) >= key(#[trigger] r[j]) by {
            if j == s.len() {
                assert(key(s[i]) >= key(s[s.len() - 1]));
            }
        }
    } else {
        let t = s.drop_last();
        let l = s.last();
        lemma_insert_desc_sorted(t, x, key);
        let p = |a: A| key(a) >= key(l);
        assert forall|k: int| 0 <= k < t.len() implies p(#[trigger] t[k]) by {
            assert(t[k] == s[k]);
        }
        lemma_insert_desc_all(t, x, key, p);
        let u = insert_desc(t, x, key);
        assert forall|i: int, j: int| 0 <= i < j < r.len() implies key(#[trigger] r[i]) >= key(#[trigger] r[j]) by {
            if j == u.len() {
                assert(p(u[i]));
            } else {
                assert(r[i] == u[i]);
                assert(r[j] == u[j]);
            }
        }
    }
}

/// The stable sort by descending key is ordered by descending key.
pub proof fn lemma_sort_desc_sorted<A>(s: Seq<A>, key: spec_fn(A) -> int)
    ensures
        forall|i: int, j: int| 0 <= i < j < sort_desc(s, key).len()
            ==> key(#[trigger] sort_desc(s, key)[i]) >= key(#[trigger] sort_desc(s, key)[j]),
    decreases s.len(),
{
    if s.len() > 0 {
        lemma_sort_desc_sorted(s.drop_last(), key);
        lemma_insert_desc_sorted(sort_desc(s.drop_last(), key), s.last(), key);
    }
}

/// The sum of `f` over the elements of `s`.
pub open spec fn sum_by<A>(s: Seq<A>, f: spec_fn(A) -> int) -> int
    decreases s.len(),
{
    if s.len() == 0 {
        0
    } else {
        sum_by(s.drop_last(), f) + f(s.last())
    }
}

/// Replacing one element changes the sum by the difference.
pub proof fn lemma_sum_by_update<A>(s: Seq<A>, f: spec_fn(A) -> int, k: int, y: A)
    requires
        0 <= k < s.len(),
    ensures
        sum_by(s.update(k, y), f) == sum_by(s, f) - f(s[k]) + f(y),
    decreases s.len(),
{
    if k == s.len() - 1 {
        assert(s.update(k, y).drop_last() =~= s.drop_last());
    } else {
        lemma_sum_by_update(s.drop_last(), f, k, y);
        assert(s.update(k, y).drop_last() =~= s.drop_last().update(k, y));
    }
}

proof fn lemma_insert_desc_sum<A>(s: Seq<A>, x: A, key: spec_fn(A) -> int, f: spec_fn(A) -> int)
    ensures
        sum_by(insert_desc(s, x, key), f) == sum_by(s, f) + f(x),
    decreases s.len(),
{
    if s.len() == 0 {
        assert(seq![x].drop_last() =~= Seq::<A>::empty());
        assert(sum_by(seq![x], f) == sum_by(Seq::<A>::empty(), f) + f(x));
    } else if key(s.last()) >= key(x) {
        assert(s.push(x).drop_last() =~= s);
        assert(sum_by(s.push(x), f) == sum_by(s, f) + f(x));
    } else {
        lemma_insert_desc_sum(s.drop_last(), x, key, f);
        let u = insert_desc(s.drop_last(), x, key);
        assert(u.push(s.last()).drop_last() =~= u);
        assert(sum_by(u.push(s.last()), f) == sum_by(u, f) + f(s.last()));
    }
}

/// Sorting keeps the sum of any function of the elements.
pub proof fn lemma_sort_desc_sum<A>(s: Seq<A>, key: spec_fn(A) -> int, f: spec_fn(A) -> int)
    ensures
        sum_by(sort_desc(s, key), f) == sum_by(s, f),
    decreases s.len(),
{
    if s.len() > 0 {
        lemma_sort_desc_sum(s.drop_last(), key, f);
        lemma_insert_desc_sum(sort_desc(s.drop_last(), key), s.last(), key, f);
    }
}

/// A symmetric relation that holds between the elements at any two distinct
/// positions.
pub open spec fn pairwise<A>(s: Seq<A>, p: spec_fn(A, A) -> bool) -> bool {
    forall|i: int, j: int| 0 <= i < s.len() && 0 <= j < s.len() && i != j ==> p(#[trigger] s[i], #[trigger] s[j])
}

proof fn lemma_insert_desc_pairwise<A>(s: Seq<A>, x: A, key: spec_fn(A) -> int, p: spec_fn(A, A) -> bool)
    requires
        forall|a: A, b: A| #[trigger] p(a, b) ==> p(b, a),
        pairwise(s, p),
        forall|k: int| 0 <= k < s.len() ==> p(#[trigger] s[k], x),
    ensures
        pairwise(insert_desc(s, x, key), p),
    decreases s.len(),
{
    let r = insert_desc(s, x, key);
    if s.len() == 0 {
    } else if key(s.last()) >= key(x) {
        assert forall|i: int, j: int| 0 <= i < r.len() && 0 <= j < r.len() && i != j implies p(#[trigger] r[i], #[trigger] r[j]) by {
            if i == s.len() {
                assert(p(s[j], x));
            } else if j == s.len() {
                assert(p(s[i], x));
            }
        }
    } else {
        let t = s.drop_last();
        let l = s.last();
        assert forall|i: int, j: int| 0 <= i < t.len() && 0 <= j < t.len() && i != j implies p(#[trigger] t[i], #[trigger] t[j]) by {
            assert(t[i] == s[i] && t[j] == s[j]);
        }
        assert forall|k: int| 0 <= k < t.len() implies p(#[trigger] t[k], x) by {
            assert(t[k] == s[k]);
        }
        lemma_insert_desc_pairwise(t, x, key, p);
        let q = |a: A| p(a, l);
        assert forall|k: int| 0 <= k < t.len() implies q(#[trigger] t[k]) by {
            assert(t[k] == s[k]);
            assert(p(s[k], s[s.len() - 1]));
        }
        assert(p(l, x));
        lemma_insert_desc_all(t, x, key, q);
        let u = insert_desc(t, x, key);
        assert forall|i: int, j: int| 0 <= i < r.len() && 0 <= j < r.len() && i != j implies p(#[trigger] r[i], #[trigger] r[j]) by {
            if i == u.len() {
                assert(q(u[j]));
            } else if j == u.len() {
                assert(q(u[i]));
            } else {
                assert(r[i] == u[i] && r[j] == u[j]);
            }
        }
    }
}

/// Sorting keeps a symmetric relation that holds pairwise.
pub proof fn lemma_sort_desc_pairwise<A>(s: Seq<A>, key: spec_fn(A) -> int, p: spec_fn(A, A) -> bool)
    requires
        forall|a: A, b: A| #[trigger] p(a, b) ==> p(b, a),
        pairwise(s, p),
    ensures
        pairwise(sort_desc(s, key), p),
    decreases s.len(),
{
    if s.len() > 0 {
        let t = s.drop_last();
        assert forall|i: int, j: int| 0 <= i < t.len() && 0 <= j < t.len() && i != j implies p(#[trigger] t[i], #[trigger] t[j]) by {
            assert(t[i] == s[i] && t[j] == s[j]);
        }
        lemma_sort_desc_pairwise(t, key, p);
        let q = |a: A| p(a, s.last());
        assert forall|k: int| 0 <= k < t.len() implies q(#[trigger] t[k]) by {
            assert(t[k] == s[k]);
            assert(p(s[k], s[s.len() - 1]));
        }
        lemma_sort_desc_all(t, key, q);
        lemma_insert_desc_pairwise(sort_desc(t, key), s.last(), key, p);
    }
}


/// Summing after a map is summing the composition.
pub proof fn lemma_sum_by_map<A, B>(s: Seq<A>, g: spec_fn(A) -> B, f: spec_fn(B) -> int, h: spec_fn(A) -> int)
    requires
        forall|a: A| #[trigger] h(a) == f(g(a)),
    ensures
        sum_by(s.map_values(g), f) == sum_by(s, h),
    decreases s.len(),
{
    if s.len() > 0 {
        lemma_sum_by_map(s.drop_last(), g, f, h);
        assert(s.map_values(g).drop_last() =~= s.drop_last().map_values(g));
        assert(s.map_values(g).last() == g(s.last()));
    }
}


// ---------------------------------------------------------------------------
// Stable sorting by a relation

/// `a` comes before `b` in the lexicographic order of character codes
/// (the order of `str::cmp`, comparing from position `i`).
pub open spec fn lex_lt_from(a: Seq<char>, b: Seq<char>, i: int) -> bool
    decreases a.len() - i,
{
    if i < 0 || i >= b.len() {
        false
    } else if i >= a.len() {
        true
    } else if a[i] != b[i] {
        a[i] < b[i]
    } else {
        lex_lt_from(a, b, i + 1)
    }
}

pub open spec fn lex_lt(a: Seq<char>, b: Seq<char>) -> bool {
    lex_lt_from(a, b, 0)
}

pub fn lex_lt_exec(a: &Vec<char>, b: &Vec<char>) -> (r: bool)
    ensures
        r == lex_lt(a@, b@),
{
    let mut i: usize = 0;
    while i < a.len() && i < b.len() && a[i] == b[i]
        invariant
            i <= a@.len(),
            i <= b@.len(),
            lex_lt_from(a@, b@, 0) == lex_lt_from(a@, b@, i as int),
        decreases a.len() - i,
    {
        i = i + 1;
    }
    if i >= b.len() {
        false
    } else if i >= a.len() {
        true
    } else {
        a[i] < b[i]
    }
}

/// The order of sort keys: by rank, then by text, ascending or descending.
pub open spec fn key_before(ka: (u8, Seq<char>), kb: (u8, Seq<char>), desc: bool) -> bool {
    ka.0 < kb.0 || (ka.0 == kb.0 && if desc {
        lex_lt(kb.1, ka.1)
    } else {
        lex_lt(ka.1, kb.1)
    })
}

fn key_before_exec(ka: &(u8, Vec<char>), kb: &(u8, Vec<char>), desc: bool) -> (r: bool)
    ensures
        r == key_before((ka.0, ka.1@), (kb.0, kb.1@), desc),
{
    if ka.0 < kb.0 {
        true
    } else if ka.0 == kb.0 {
        if desc {
            lex_lt_exec(&kb.1, &ka.1)
        } else {
            lex_lt_exec(&ka.1, &kb.1)
        }
    } else {
        false
    }
}

/// `s` with `x` put after the last element that `x` does not go before.
pub open spec fn insert_rel<A>(s: Seq<A>, x: A, before: spec_fn(A, A) -> bool) -> Seq<A>
    decreases s.len(),
{
    if s.len() == 0 {
        seq![x]
    } else if !before(x, s.last()) {
        s.push(x)
    } else {
        insert_rel(s.drop_last(), x, before).push(s.last())
    }
}

/// The stable sort of `s` by the strict order `before` (what `sort_by`
/// produces with the matching comparison).
pub open spec fn sort_rel<A>(s: Seq<A>, before: spec_fn(A, A) -> bool) -> Seq<A>
    decreases s.len(),
{
    if s.len() == 0 {
        Seq::empty()
    } else {
        insert_rel(sort_rel(s.drop_last(), before), s.last(), before)
    }
}

proof fn lemma_insert_rel_at<A>(s: Seq<A>, x: A, before: spec_fn(A, A) -> bool, j: int)
    requires
        0 <= j <= s.len(),
        j == 0 || !before(x, s[j - 1]),
        forall|k: int| j <= k < s.len() ==> before(x, #[trigger] s[k]),
    ensures
        insert_rel(s, x, before) == s.take(j).push(x) + s.skip(j),
    decreases s.len(),
{
    if s.len() == 0 {
        assert(s.take(j).push(x) + s.skip(j) =~= seq![x]);
    } else if j == s.len() {
        assert(s.take(j).push(x) + s.skip(j) =~= s.push(x));
    } else {
        assert(before(x, s.last()));
        lemma_insert_rel_at(s.drop_last(), x, before, j);
        assert(s.drop_last().take(j) =~= s.take(j));
        assert((s.drop_last().take(j).push(x) + s.drop_last().skip(j)).push(s.last())
            =~= s.take(j).push(x) + s.skip(j));
    }
}

/// Sorts `items` stably by their keys (`keys` holds each item's key).
pub(crate) fn stable_sort_by_keys<T>(
    items: Vec<T>,
    keys: Vec<(u8, Vec<char>)>,
    desc: bool,
    Ghost(key): Ghost<spec_fn(T) -> (u8, Seq<char>)>,
) -> (r: Vec<T>)
    requires
        items@.len() == keys@.len(),
        forall|i: int| 0 <= i < items@.len() ==> (keys@[i].0, keys@[i].1@) == key(#[trigger] items@[i]),
    ensures
        r@ == sort_rel(items@, |a: T, b: T| key_before(key(a), key(b), desc)),
{
    let ghost before = |a: T, b: T| key_before(key(a), key(b), desc);
    let ghost orig = items@;
    let mut rest = items;
    let mut rest_keys = keys;
    let mut out: Vec<T> = Vec::new();
    let mut out_keys: Vec<(u8, Vec<char>)> = Vec::new();
    let mut i: usize = 0;
    let n = rest.len();
    assert(orig.take(0) =~= Seq::<T>::empty());
    assert(orig.skip(0) =~= orig);
    while rest.len() > 0
        invariant
            n == orig.len(),
            i + rest@.len() == n,
            before == (|a: T, b: T| key_before(key(a), key(b), desc)),
            rest@ == orig.skip(i as int),
            rest_keys@.len() == rest@.len(),
            forall|k: int| 0 <= k < rest@.len() ==> (rest_keys@[k].0, rest_keys@[k].1@) == key(#[trigger] rest@[k]),
            out@ == sort_rel(orig.take(i as int), before),
            out_keys@.len() == out@.len(),
            forall|k: int| 0 <= k < out@.len() ==> (out_keys@[k].0, out_keys@[k].1@) == key(#[trigger] out@[k]),
        decreases rest@.len(),
    {
        let x = rest.remove(0);
        let kx = rest_keys.remove(0);
        proof {
            assert((kx.0, kx.1@) == key(x));
            assert(orig.take(i + 1).drop_last() =~= orig.take(i as int));
            assert(orig.take(i + 1).last() == x);
            assert(rest@ =~= orig.skip(i + 1));
        }
        let mut j = out.len();
        while j > 0 && key_before_exec(&kx, &out_keys[j - 1], desc)
            invariant
                j <= out@.len(),
                out_keys@.len() == out@.len(),
                (kx.0, kx.1@) == key(x),
                before == (|a: T, b: T| key_before(key(a), key(b), desc)),
                forall|k: int| 0 <= k < out@.len() ==> (out_keys@[k].0, out_keys@[k].1@) == key(#[trigger] out@[k]),
                forall|k: int| j <= k < out@.len() ==> before(x, #[trigger] out@[k]),
            decreases j,
        {
            assert(before(x, out@[j - 1]));
            j = j - 1;
        }
        proof {
            if j > 0 {
                assert(!before(x, out@[j - 1]));
            }
            lemma_insert_rel_at(out@, x, before, j as int);
            assert(out@.insert(j as int, x) =~= out@.take(j as int).push(x) + out@.skip(j as int));
        }
        let ghost prev_out = out@;
        let ghost prev_keys = out_keys@;
        out.insert(j, x);
        out_keys.insert(j, kx);
        proof {
            assert forall|k: int| 0 <= k < out@.len() implies (out_keys@[k].0, out_keys@[k].1@) == key(#[trigger] out@[k]) by {
                if k < j {
                    assert(out@[k] == prev_out[k]);
                    assert(out_keys@[k] == prev_keys[k]);
                } else if k > j {
                    assert(out@[k] == prev_out[k - 1]);
                    assert(out_keys@[k] == prev_keys[k - 1]);
                }
            }
        }
        i = i + 1;
    }
    assert(orig.take(n as int) =~= orig);
    out
}


proof fn lemma_insert_rel_map<A, B>(s: Seq<A>, x: A, ra: spec_fn(A, A) -> bool, f: spec_fn(A) -> B, rb: spec_fn(B, B) -> bool)
    requires
        forall|a: A, b: A| #[trigger] rb(f(a), f(b)) == ra(a, b),
    ensures
        insert_rel(s, x, ra).map_values(f) == insert_rel(s.map_values(f), f(x), rb),
    decreases s.len(),
{
    if s.len() == 0 {
        assert(seq![x].map_values(f) =~= seq![f(x)]);
    } else {
        assert(s.map_values(f).last() == f(s.last()));
        assert(s.map_values(f).drop_last() =~= s.drop_last().map_values(f));
        assert(rb(f(x), f(s.last())) == ra(x, s.last()));
        if !ra(x, s.last()) {
            assert(s.push(x).map_values(f) =~= s.map_values(f).push(f(x)));
        } else {
            lemma_insert_rel_map(s.drop_last(), x, ra, f, rb);
            assert(insert_rel(s.drop_last(), x, ra).push(s.last()).map_values(f) =~= insert_rel(
                s.drop_last(),
                x,
                ra,
            ).map_values(f).push(f(s.last())));
        }
    }
}

/// Sorting and then mapping equals mapping and then sorting, when the map
/// keeps the order.
pub proof fn lemma_sort_rel_map<A, B>(s: Seq<A>, ra: spec_fn(A, A) -> bool, f: spec_fn(A) -> B, rb: spec_fn(B, B) -> bool)
    requires
        forall|a: A, b: A| #[trigger] rb(f(a), f(b)) == ra(a, b),
    ensures
        sort_rel(s, ra).map_values(f) == sort_rel(s.map_values(f), rb),
    decreases s.len(),
{
    if s.len() == 0 {
        assert(Seq::<A>::empty().map_values(f) =~= Seq::<B>::empty());
        assert(s.map_values(f) =~= Seq::<B>::empty());
    } else {
        lemma_sort_rel_map(s.drop_last(), ra, f, rb);
        assert(s.map_values(f).drop_last() =~= s.drop_last().map_values(f));
        assert(s.map_values(f).last() == f(s.last()));
        lemma_insert_rel_map(sort_rel(s.drop_last(), ra), s.last(), ra, f, rb);
    }
}


/// The sum of `f` over the elements of `s`, as a multiset.
pub open spec fn bag_by<A, B>(s: Seq<A>, f: spec_fn(A) -> Multiset<B>) -> Multiset<B>
    decreases s.len(),
{
    if s.len() == 0 {
        Multiset::empty()
    } else {
        bag_by(s.drop_last(), f).add(f(s.last()))
    }
}

proof fn lemma_insert_rel_bag<A, B>(s: Seq<A>, x: A, before: spec_fn(A, A) -> bool, f: spec_fn(A) -> Multiset<B>)
    ensures
        bag_by(insert_rel(s, x, before), f) =~= bag_by(s, f).add(f(x)),
    decreases s.len(),
{
    broadcast use vstd::multiset::group_multiset_axioms;

    if s.len() == 0 {
        assert(seq![x].drop_last() =~= Seq::<A>::empty());
        assert(bag_by(seq![x], f) == bag_by(Seq::<A>::empty(), f).add(f(x)));
    } else if !before(x, s.last()) {
        assert(s.push(x).drop_last() =~= s);
        assert(bag_by(s.push(x), f) == bag_by(s, f).add(f(x)));
    } else {
        lemma_insert_rel_bag(s.drop_last(), x, before, f);
        let u = insert_rel(s.drop_last(), x, before);
        assert(u.push(s.last()).drop_last() =~= u);
        assert(bag_by(u.push(s.last()), f) == bag_by(u, f).add(f(s.last())));
    }
}

/// Sorting keeps the multiset sum of any function of the elements.
pub proof fn lemma_sort_rel_bag<A, B>(s: Seq<A>, before: spec_fn(A, A) -> bool, f: spec_fn(A) -> Multiset<B>)
    ensures
        bag_by(sort_rel(s, before), f) =~= bag_by(s, f),
    decreases s.len(),
{
    broadcast use vstd::multiset::group_multiset_axioms;

    if s.len() > 0 {
        lemma_sort_rel_bag(s.drop_last(), before, f);
        lemma_insert_rel_bag(sort_rel(s.drop_last(), before), s.last(), before, f);
    }
}


// ---------------------------------------------------------------------------
// Ordered results

proof fn lemma_lex_lt_irreflexive(a: Seq<char>, i: int)
    requires
        0 <= i,
    ensures
        !lex_lt_from(a, a, i),
    decreases a.len() - i,
{
    if i < a.len() {
        lemma_lex_lt_irreflexive(a, i + 1);
    }
}

proof fn lemma_lex_lt_transitive(a: Seq<char>, b: Seq<char>, c: Seq<char>, i: int)
    requires
        0 <= i,
        lex_lt_from(a, b, i),
        lex_lt_from(b, c, i),
    ensures
        lex_lt_from(a, c, i),
    decreases b.len() - i,
{
    if i < a.len() && a[i] == b[i] && b[i] == c[i] {
        lemma_lex_lt_transitive(a, b, c, i + 1);
    }
}

proof fn lemma_lex_lt_total(a: Seq<char>, b: Seq<char>, i: int)
    requires
        0 <= i <= a.len(),
        i <= b.len(),
        a.take(i) == b.take(i),
        a != b,
    ensures
        lex_lt_from(a, b, i) || lex_lt_from(b, a, i),
    decreases a.len() + b.len() - 2 * i,
{
    if i == a.len() && i == b.len() {
        assert(a =~= a.take(i));
        assert(b =~= b.take(i));
    } else if i < a.len() && i < b.len() && a[i] == b[i] {
        assert(a.take(i + 1) =~= a.take(i).push(a[i]));
        assert(b.take(i + 1) =~= b.take(i).push(b[i]));
        lemma_lex_lt_total(a, b, i + 1);
    }
}

/// `lex_lt` is a strict total order.
pub proof fn lemma_lex_lt_order(a: Seq<char>, b: Seq<char>, c: Seq<char>)
    ensures
        !lex_lt(a, a),
        lex_lt(a, b) && lex_lt(b, c) ==> lex_lt(a, c),
        a != b ==> lex_lt(a, b) || lex_lt(b, a),
{
    lemma_lex_lt_irreflexive(a, 0);
    if lex_lt(a, b) && lex_lt(b, c) {
        lemma_lex_lt_transitive(a, b, c, 0);
    }
    if a != b {
        assert(a.take(0) =~= b.take(0));
        lemma_lex_lt_total(a, b, 0);
    }
}

/// `key_before` is asymmetric, and whatever comes between two ordered keys
/// comes after the first or before the second.
proof fn lemma_key_before_order(ka: (u8, Seq<char>), kb: (u8, Seq<char>), kc: (u8, Seq<char>), desc: bool)
    ensures
        key_before(ka, kb, desc) ==> !key_before(kb, ka, desc),
        key_before(ka, kc, desc) ==> key_before(ka, kb, desc) || key_before(kb, kc, desc),
{
    lemma_lex_lt_order(ka.1, kb.1, kc.1);
    lemma_lex_lt_order(kb.1, ka.1, kc.1);
    lemma_lex_lt_order(ka.1, kc.1, kb.1);
    lemma_lex_lt_order(kb.1, kc.1, ka.1);
    lemma_lex_lt_order(kc.1, ka.1, kb.1);
    lemma_lex_lt_order(kc.1, kb.1, ka.1);
    lemma_lex_lt_order(ka.1, kb.1, ka.1);
    lemma_lex_lt_order(kb.1, ka.1, kb.1);
}

/// Whether no element of `s` comes, by `before`, before one ahead of it.
pub open spec fn rel_sorted<A>(s: Seq<A>, before: spec_fn(A, A) -> bool) -> bool {
    forall|i: int, j: int| 0 <= i < j < s.len() ==> !before(#[trigger] s[j], #[trigger] s[i])
}

proof fn lemma_insert_rel_members<A>(s: Seq<A>, x: A, before: spec_fn(A, A) -> bool)
    ensures
        insert_rel(s, x, before).len() == s.len() + 1,
        forall|k: int| 0 <= k < insert_rel(s, x, before).len() ==>
            #[trigger] insert_rel(s, x, before)[k] == x || s.contains(insert_rel(s, x, before)[k]),
    decreases s.len(),
{
    if s.len() > 0 && before(x, s.last()) {
        lemma_insert_rel_members(s.drop_last(), x, before);
        let u = insert_rel(s.drop_last(), x, before);
        assert forall|k: int| 0 <= k < u.push(s.last()).len() implies
            #[trigger] u.push(s.last())[k] == x || s.contains(u.push(s.last())[k]) by {
            if k < u.len() {
                if u[k] != x {
                    let m = choose|m: int| 0 <= m < s.drop_last().len() && s.drop_last()[m] == u[k];
                    assert(s[m] == u[k]);
                }
            } else {
                assert(s[s.len() - 1] == s.last());
            }
        }
    }
}

proof fn lemma_insert_rel_sorted<A>(s: Seq<A>, x: A, key: spec_fn(A) -> (u8, Seq<char>), desc: bool)
    requires
        rel_sorted(s, |a: A, b: A| key_before(key(a), key(b), desc)),
    ensures
        rel_sorted(insert_rel(s, x, |a: A, b: A| key_before(key(a), key(b), desc)), |a: A, b: A| key_before(key(a), key(b), desc)),
    decreases s.len(),
{
    let before = |a: A, b: A| key_before(key(a), key(b), desc);
    if s.len() == 0 {
    } else if !before(x, s.last()) {
        let r = s.push(x);
        assert forall|i: int, j: int| 0 <= i < j < r.len() implies !before(#[trigger] r[j], #[trigger] r[i]) by {
            if j == s.len() {
                lemma_key_before_order(key(x), key(s.last()), key(s[i]), desc);
                if i < s.len() - 1 {
                    assert(!before(s[s.len() - 1], s[i]));
                }
            } else {
                assert(r[j] == s[j] && r[i] == s[i]);
            }
        }
    } else {
        let init = s.drop_last();
        assert(rel_sorted(init, before)) by {
            assert forall|i: int, j: int| 0 <= i < j < init.len() implies !before(#[trigger] init[j], #[trigger] init[i]) by {
                assert(init[j] == s[j] && init[i] == s[i]);
            }
        }
        lemma_insert_rel_sorted(init, x, key, desc);
        lemma_insert_rel_members(init, x, before);
        let u = insert_rel(init, x, before);
        let r = u.push(s.last());
        assert forall|i: int, j: int| 0 <= i < j < r.len() implies !before(#[trigger] r[j], #[trigger] r[i]) by {
            if j == u.len() {
                if u[i] == x {
                    lemma_key_before_order(key(x), key(s.last()), key(x), desc);
                } else {
                    let m = choose|m: int| 0 <= m < init.len() && init[m] == u[i];
                    assert(s[m] == u[i]);
                    assert(s[s.len() - 1] == s.last());
                    assert(!before(s[s.len() - 1], s[m]));
                }
            } else {
                assert(r[j] == u[j] && r[i] == u[i]);
            }
        }
    }
}

/// Sorting by keys gives an ordered sequence: no element's key comes before
/// the key of an element ahead of it.
pub proof fn lemma_sort_by_key_sorted<A>(s: Seq<A>, key: spec_fn(A) -> (u8, Seq<char>), desc: bool)
    ensures
        rel_sorted(sort_rel(s, |a: A, b: A| key_before(key(a), key(b), desc)), |a: A, b: A| key_before(key(a), key(b), desc)),
    decreases s.len(),
{
    if s.len() > 0 {
        lemma_sort_by_key_sorted(s.drop_last(), key, desc);
        lemma_insert_rel_sorted(sort_rel(s.drop_last(), |a: A, b: A| key_before(key(a), key(b), desc)), s.last(), key, desc);
    }
}


/// The elements of `s` whose key is `k`, in order.
pub open spec fn with_key<A>(s: Seq<A>, key: spec_fn(A) -> (u8, Seq<char>), k: (u8, Seq<char>)) -> Seq<A>
    decreases s.len(),
{
    if s.len() == 0 {
        Seq::empty()
    } else if key(s.last()) == k {
        with_key(s.drop_last(), key, k).push(s.last())
    } else {
        with_key(s.drop_last(), key, k)
    }
}

proof fn lemma_insert_rel_stable<A>(s: Seq<A>, x: A, key: spec_fn(A) -> (u8, Seq<char>), desc: bool, k: (u8, Seq<char>))
    ensures
        with_key(insert_rel(s, x, |a: A, b: A| key_before(key(a), key(b), desc)), key, k) == (if key(x) == k {
            with_key(s, key, k).push(x)
        } else {
            with_key(s, key, k)
        }),
    decreases s.len(),
{
    let before = |a: A, b: A| key_before(key(a), key(b), desc);
    let r = insert_rel(s, x, before);
    if s.len() == 0 {
        assert(r == seq![x]);
        assert(seq![x].drop_last() =~= Seq::<A>::empty());
        assert(seq![x].last() == x);
        assert(with_key(Seq::<A>::empty(), key, k) == Seq::<A>::empty());
        assert(with_key(r, key, k) == (if key(x) == k { with_key(s, key, k).push(x) } else { with_key(s, key, k) }));
    } else if !before(x, s.last()) {
        assert(r == s.push(x));
        assert(s.push(x).drop_last() =~= s);
        assert(s.push(x).last() == x);
        assert(with_key(r, key, k) == (if key(x) == k { with_key(s, key, k).push(x) } else { with_key(s, key, k) }));
    } else {
        let init = s.drop_last();
        lemma_insert_rel_stable(init, x, key, desc, k);
        let u = insert_rel(init, x, before);
        assert(r == u.push(s.last()));
        assert(u.push(s.last()).drop_last() =~= u);
        assert(u.push(s.last()).last() == s.last());
        lemma_lex_lt_order(key(x).1, key(x).1, key(x).1);
        assert(key(x) != key(s.last()));
        assert(with_key(r, key, k) == (if key(x) == k { with_key(s, key, k).push(x) } else { with_key(s, key, k) }));
    }
}

/// Sorting by keys keeps the elements of equal key in their order: for
/// every key, the elements with that key come out as they came in.
pub proof fn lemma_sort_by_key_stable<A>(s: Seq<A>, key: spec_fn(A) -> (u8, Seq<char>), desc: bool, k: (u8, Seq<char>))
    ensures
        with_key(sort_rel(s, |a: A, b: A| key_before(key(a), key(b), desc)), key, k) == with_key(s, key, k),
    decreases s.len(),
{
    if s.len() > 0 {
        lemma_sort_by_key_stable(s.drop_last(), key, desc, k);
        lemma_insert_rel_stable(sort_rel(s.drop_last(), |a: A, b: A| key_before(key(a), key(b), desc)), s.last(), key, desc, k);
    }
}


/// Sorting keeps a property that every element has.
pub proof fn lemma_sort_rel_all<A>(s: Seq<A>, before: spec_fn(A, A) -> bool, p: spec_fn(A) -> bool)
    requires
        forall|i: int| 0 <= i < s.len() ==> p(#[trigger] s[i]),
    ensures
        sort_rel(s, before).len() == s.len(),
        forall|i: int| 0 <= i < sort_rel(s, before).len() ==> p(#[trigger] sort_rel(s, before)[i]),
    decreases s.len(),
{
    if s.len() > 0 {
        let init = s.drop_last();
        assert forall|i: int| 0 <= i < init.len() implies p(#[trigger] init[i]) by {
            assert(init[i] == s[i]);
        }
        lemma_sort_rel_all(init, before, p);
        let t = sort_rel(init, before);
        lemma_insert_rel_members(t, s.last(), before);
        let r = insert_rel(t, s.last(), before);
        assert forall|i: int| 0 <= i < r.len() implies p(#[trigger] r[i]) by {
            if r[i] != s.last() {
                let j = choose|j: int| 0 <= j < t.len() && t[j] == r[i];
            }
        }
    }
}


proof fn lemma_insert_rel_pairwise<A>(s: Seq<A>, x: A, before: spec_fn(A, A) -> bool, p: spec_fn(A, A) -> bool)
    requires
        forall|a: A, b: A| #[trigger] p(a, b) ==> p(b, a),
        pairwise(s, p),
        forall|k: int| 0 <= k < s.len() ==> p(#[trigger] s[k], x),
    ensures
        pairwise(insert_rel(s, x, before), p),
    decreases s.len(),
{
    let r = insert_rel(s, x, before);
    if s.len() == 0 {
    } else if !before(x, s.last()) {
        assert forall|i: int, j: int| 0 <= i < r.len() && 0 <= j < r.len() && i != j implies p(#[trigger] r[i], #[trigger] r[j]) by {
            if i == s.len() {
                assert(p(s[j], x));
            } else if j == s.len() {
                assert(p(s[i], x));
            }
        }
    } else {
        let t = s.drop_last();
        let l = s.last();
        assert forall|i: int, j: int| 0 <= i < t.len() && 0 <= j < t.len() && i != j implies p(#[trigger] t[i], #[trigger] t[j]) by {
            assert(t[i] == s[i] && t[j] == s[j]);
        }
        assert forall|k: int| 0 <= k < t.len() implies p(#[trigger] t[k], x) by {
            assert(t[k] == s[k]);
        }
        lemma_insert_rel_pairwise(t, x, before, p);
        lemma_insert_rel_members(t, x, before);
        let u = insert_rel(t, x, before);
        assert(p(s[s.len() - 1], x));
        assert forall|k: int| 0 <= k < u.len() implies p(#[trigger] u[k], l) by {
            if u[k] == x {
                assert(p(l, x));
            } else {
                let m = choose|m: int| 0 <= m < t.len() && t[m] == u[k];
                assert(t[m] == s[m]);
                assert(p(s[m], s[s.len() - 1]));
            }
        }
        assert forall|i: int, j: int| 0 <= i < r.len() && 0 <= j < r.len() && i != j implies p(#[trigger] r[i], #[trigger] r[j]) by {
            if i == u.len() {
                assert(p(u[j], l));
            } else if j == u.len() {
                assert(p(u[i], l));
            } else {
                assert(r[i] == u[i] && r[j] == u[j]);
            }
        }
    }
}

/// The stable sort keeps a symmetric relation that holds pairwise.
pub proof fn lemma_sort_rel_pairwise<A>(s: Seq<A>, before: spec_fn(A, A) -> bool, p: spec_fn(A, A) -> bool)
    requires
        forall|a: A, b: A| #[trigger] p(a, b) ==> p(b, a),
        pairwise(s, p),
    ensures
        pairwise(sort_rel(s, before), p),
    decreases s.len(),
{
    if s.len() > 0 {
        let t = s.drop_last();
        assert forall|i: int, j: int| 0 <= i < t.len() && 0 <= j < t.len() && i != j implies p(#[trigger] t[i], #[trigger] t[j]) by {
            assert(t[i] == s[i] && t[j] == s[j]);
        }
        lemma_sort_rel_pairwise(t, before, p);
        let q = |a: A| p(a, s.last());
        assert forall|k: int| 0 <= k < t.len() implies q(#[trigger] t[k]) by {
            assert(t[k] == s[k]);
            assert(p(s[k], s[s.len() - 1]));
        }
        lemma_sort_rel_all(t, before, q);
        let st = sort_rel(t, before);
        assert forall|k: int| 0 <= k < st.len() implies p(#[trigger] st[k], s.last()) by {
            assert(q(st[k]));
        }
        lemma_insert_rel_pairwise(st, s.last(), before, p);
    }
}

} // verus!
