//! Searching: the rows of a file diff, and lists of labels.
use vstd::prelude::*;
use crate::diff::{DiffRow, DiffRowV, opt_str_view, rows_view};
use crate::repos::{lowercase, to_lowercase};
use crate::config::Language;
use crate::i18n::{t, translate};
use crate::text::{chars_of, concat, contains_exec, contains_seq, decimal, decimal_chars, string_of};

verus! {

/// The rows (by position) where the left or right text contains the
/// query; `lowered` holds each row's texts as the search compares them.
pub open spec fn match_rows(lowered: Seq<(Option<Seq<char>>, Option<Seq<char>>)>, q: Seq<char>) -> Seq<usize>
    decreases lowered.len(),
{
    if lowered.len() == 0 {
        Seq::empty()
    } else {
        let prev = match_rows(lowered.drop_last(), q);
        let r = lowered.last();
        if (r.0 matches Some(t) && contains_seq(t, q)) || (r.1 matches Some(t) && contains_seq(t, q)) {
            prev.push((lowered.len() - 1) as usize)
        } else {
            prev
        }
    }
}

pub open spec fn lowered_rows_view(s: Seq<(Option<String>, Option<String>)>) -> Seq<(Option<Seq<char>>, Option<Seq<char>>)> {
    s.map_values(|p: (Option<String>, Option<String>)| (opt_str_view(p.0), opt_str_view(p.1)))
}

fn opt_contains(t: &Option<String>, q: &Vec<char>) -> (r: bool)
    ensures
        r == (opt_str_view(*t) matches Some(s) && contains_seq(s, q@)),
{
    match t {
        Some(s) => contains_exec(&chars_of(s.as_str()), q),
        None => false,
    }
}

/// The rows whose (lower-cased) left or right text contains the
/// (lower-cased) query.
pub fn search_matches_lowered(lowered: &Vec<(Option<String>, Option<String>)>, query: &str) -> (r: Vec<usize>)
    ensures
        r@ == match_rows(lowered_rows_view(lowered@), query@),
{
    let mut r: Vec<usize> = Vec::new();
    let q = chars_of(query);
    let ghost lv = lowered_rows_view(lowered@);
    let mut i: usize = 0;
    assert(lv.take(0) =~= Seq::<(Option<Seq<char>>, Option<Seq<char>>)>::empty());
    while i < lowered.len()
        invariant
            i <= lowered@.len(),
            lv == lowered_rows_view(lowered@),
            q@ == query@,
            r@ == match_rows(lv.take(i as int), q@),
        decreases lowered.len() - i,
    {
        proof {
            assert(lv.take(i + 1).drop_last() =~= lv.take(i as int));
            assert(lv.take(i + 1).last() == lv[i as int]);
        }
        if opt_contains(&lowered[i].0, &q) || opt_contains(&lowered[i].1, &q) {
            r.push(i);
        }
        i = i + 1;
    }
    assert(lv.take(lowered@.len() as int) =~= lv);
    r
}

fn lowered_opt(t: &Option<String>) -> (r: Option<String>)
    ensures
        opt_str_view(r) == match opt_str_view(*t) {
            Some(s) => Some(lowercase(s)),
            None => None,
        },
{
    match t {
        Some(s) => Some(to_lowercase(s.as_str())),
        None => None,
    }
}

/// The rows of a file diff whose left or right text contains the search
/// text, ignoring case.
pub fn get_diff_search_matches(rows: &Vec<DiffRow>, query: &str) -> (r: Vec<usize>)
    ensures
        query@.len() == 0 ==> r@.len() == 0,
        query@.len() > 0 ==> r@ == match_rows(
            rows_view(rows@).map_values(|d: DiffRowV| (
                match d.left_text {
                    Some(s) => Some(lowercase(s)),
                    None => None,
                },
                match d.right_text {
                    Some(s) => Some(lowercase(s)),
                    None => None,
                },
            )),
            lowercase(query@),
        ),
{
    if chars_of(query).len() == 0 {
        return Vec::new();
    }
    let q = to_lowercase(query);
    let mut lowered: Vec<(Option<String>, Option<String>)> = Vec::new();
    let mut i: usize = 0;
    let ghost lf = |d: DiffRowV| (
        match d.left_text {
            Some(s) => Some(lowercase(s)),
            None => None,
        },
        match d.right_text {
            Some(s) => Some(lowercase(s)),
            None => None,
        },
    );
    while i < rows.len()
        invariant
            i <= rows@.len(),
            lf == (|d: DiffRowV| (
                match d.left_text {
                    Some(s) => Some(lowercase(s)),
                    None => None,
                },
                match d.right_text {
                    Some(s) => Some(lowercase(s)),
                    None => None,
                },
            )),
            lowered_rows_view(lowered@) == rows_view(rows@).take(i as int).map_values(lf),
        decreases rows.len() - i,
    {
        let row = &rows[i];
        let p = (lowered_opt(&row.left_text), lowered_opt(&row.right_text));
        let ghost prev = lowered@;
        lowered.push(p);
        proof {
            assert(rows_view(rows@)[i as int] == row@);
            assert(row@.left_text == opt_str_view(row.left_text));
            assert(row@.right_text == opt_str_view(row.right_text));
            assert((opt_str_view(p.0), opt_str_view(p.1)) == lf(row@));
            assert(rows_view(rows@).take(i + 1) =~= rows_view(rows@).take(i as int).push(row@));
            assert(lowered_rows_view(lowered@) =~= lowered_rows_view(prev).push(lf(row@)));
            assert(rows_view(rows@).take(i as int).push(row@).map_values(lf) =~= rows_view(rows@).take(i as int).map_values(lf).push(lf(row@)));
        }
        i = i + 1;
    }
    assert(rows_view(rows@).take(rows@.len() as int) =~= rows_view(rows@));
    search_matches_lowered(&lowered, q.as_str())
}


// ---------------------------------------------------------------------------
// Moving between matches

/// The match that becomes current after a jump from match `active` of
/// `count`: forward from the last (or from past the end) back to the first,
/// backward from the first round to the last.
pub open spec fn stepped_match(active: nat, count: nat, backwards: bool) -> nat {
    if backwards {
        if active == 0 { (count - 1) as nat } else { (active - 1) as nat }
    } else {
        if active >= count - 1 { 0 } else { active + 1 }
    }
}

/// `stepped_match`; the search jumps only when there are matches, and a
/// backward jump from past the end would leave the list.
pub fn step_match(active: usize, count: usize, backwards: bool) -> (r: usize)
    requires
        count > 0,
        backwards ==> active <= count,
    ensures
        r == stepped_match(active as nat, count as nat, backwards),
        r < count,
{
    if backwards {
        if active == 0 { count - 1 } else { active - 1 }
    } else {
        if active >= count - 1 { 0 } else { active + 1 }
    }
}

/// A forward jump undoes a backward one, and a backward jump a forward one.
pub proof fn lemma_step_match_inverse(active: nat, count: nat)
    requires
        active < count,
    ensures
        stepped_match(stepped_match(active, count, true), count, false) == active,
        stepped_match(stepped_match(active, count, false), count, true) == active,
{
}

/// The counter beside the search field: "0 matches" while the field is
/// empty, "not found" when nothing matches, else the current match's
/// number (from one) and the number of matches, as `n/m`.
pub open spec fn match_counter(lang: Language, query_empty: bool, active: nat, count: nat) -> Seq<char> {
    if query_empty {
        translate(lang, "zero_matches"@)
    } else if count == 0 {
        translate(lang, "no_matches_found"@)
    } else {
        decimal(active + 1) + "/"@ + decimal(count)
    }
}

/// `match_counter` of the search's state.
pub fn match_counter_text(lang: Language, query_empty: bool, active: usize, count: usize) -> (r: String)
    requires
        active < usize::MAX,
    ensures
        r@ == match_counter(lang, query_empty, active as nat, count as nat),
{
    if query_empty {
        crate::git::lit(t(lang, "zero_matches"))
    } else if count == 0 {
        crate::git::lit(t(lang, "no_matches_found"))
    } else {
        let a = decimal_chars((active + 1) as u64);
        let slash = chars_of("/");
        let c = decimal_chars(count as u64);
        let r = concat(&concat(&a, &slash), &c);
        string_of(&r)
    }
}


// ---------------------------------------------------------------------------
// Searching labels

pub open spec fn strings_view(s: Seq<String>) -> Seq<Seq<char>> {
    s.map_values(|n: String| n@)
}

/// The positions of the labels that contain the query, in order.
pub open spec fn matching_indices(labels: Seq<Seq<char>>, q: Seq<char>) -> Seq<usize>
    decreases labels.len(),
{
    if labels.len() == 0 {
        Seq::empty()
    } else {
        let prev = matching_indices(labels.drop_last(), q);
        if contains_seq(labels.last(), q) {
            prev.push((labels.len() - 1) as usize)
        } else {
            prev
        }
    }
}

/// The positions of the (lower-cased) labels that contain the (lower-cased)
/// query.
pub fn positions_containing(lowered: &Vec<String>, query: &str) -> (r: Vec<usize>)
    ensures
        r@ == matching_indices(strings_view(lowered@), query@),
{
    let q = chars_of(query);
    let ghost lv = strings_view(lowered@);
    let mut r: Vec<usize> = Vec::new();
    let mut i: usize = 0;
    assert(lv.take(0) =~= Seq::<Seq<char>>::empty());
    while i < lowered.len()
        invariant
            i <= lowered@.len(),
            lv == strings_view(lowered@),
            q@ == query@,
            r@ == matching_indices(lv.take(i as int), q@),
        decreases lowered.len() - i,
    {
        proof {
            assert(lv.take(i + 1).drop_last() =~= lv.take(i as int));
            assert(lv.take(i + 1).last() == lv[i as int]);
        }
        if contains_exec(&chars_of(lowered[i].as_str()), &q) {
            r.push(i);
        }
        i = i + 1;
    }
    assert(lv.take(lowered@.len() as int) =~= lv);
    r
}

/// A search over labels keeps them in their order and finds exactly those
/// that contain the query: the positions it gives rise strictly, each names
/// a label that contains the query, and every such label is named.
pub proof fn lemma_matching_indices(labels: Seq<Seq<char>>, q: Seq<char>)
    requires
        labels.len() <= usize::MAX,
    ensures
        forall|k: int| 0 <= k < matching_indices(labels, q).len() ==> {
            let idx = #[trigger] matching_indices(labels, q)[k];
            idx < labels.len() && contains_seq(labels[idx as int], q)
        },
        forall|a: int, b: int| 0 <= a < b < matching_indices(labels, q).len() ==>
            matching_indices(labels, q)[a] < matching_indices(labels, q)[b],
        forall|j: int| 0 <= j < labels.len() && contains_seq(#[trigger] labels[j], q) ==>
            matching_indices(labels, q).contains(j as usize),
    decreases labels.len(),
{
    if labels.len() > 0 {
        let init = labels.drop_last();
        lemma_matching_indices(init, q);
        let prev = matching_indices(init, q);
        assert forall|j: int| 0 <= j < labels.len() && contains_seq(#[trigger] labels[j], q) implies
            matching_indices(labels, q).contains(j as usize) by {
            if j < labels.len() - 1 {
                assert(init[j] == labels[j]);
                let k = choose|k: int| 0 <= k < prev.len() && prev[k] == j as usize;
                if contains_seq(labels.last(), q) {
                    assert(prev.push((labels.len() - 1) as usize)[k] == j as usize);
                }
            } else {
                assert(prev.push((labels.len() - 1) as usize).last() == j as usize);
            }
        }
    }
}



// ---------------------------------------------------------------------------
// Which rows match

/// Whether `q` occurs in `t` somewhere, at its start or anywhere later.
pub open spec fn occurs_in(t: Seq<char>, q: Seq<char>) -> bool {
    exists|k: int| 0 <= k && k + q.len() <= t.len() && #[trigger] t.subrange(k, k + q.len()) == q
}

/// Whether the left or the right text of a row holds `q` somewhere.
pub open spec fn row_holds(r: (Option<Seq<char>>, Option<Seq<char>>), q: Seq<char>) -> bool {
    (r.0 matches Some(t) && occurs_in(t, q)) || (r.1 matches Some(t) && occurs_in(t, q))
}

proof fn lemma_contains_occurs(t: Seq<char>, q: Seq<char>)
    ensures
        contains_seq(t, q) <==> occurs_in(t, q),
{
    if contains_seq(t, q) {
        let k = choose|k: int| crate::text::matches_at(t, q, k);
        assert(t.subrange(k, k + q.len()) == q);
    }
    if occurs_in(t, q) {
        let k = choose|k: int| 0 <= k && k + q.len() <= t.len() && #[trigger] t.subrange(k, k + q.len()) == q;
        assert(crate::text::matches_at(t, q, k));
    }
}

/// The matching rows are, in increasing order, exactly the rows whose left
/// or right text holds the query anywhere (not only at its start).
pub proof fn lemma_match_rows(lowered: Seq<(Option<Seq<char>>, Option<Seq<char>>)>, q: Seq<char>)
    requires
        lowered.len() <= usize::MAX,
    ensures
        forall|k: int| 0 <= k < match_rows(lowered, q).len() ==> (#[trigger] match_rows(lowered, q)[k]) < lowered.len()
            && row_holds(lowered[match_rows(lowered, q)[k] as int], q),
        forall|i: int| 0 <= i < lowered.len() && row_holds(#[trigger] lowered[i], q) ==> match_rows(lowered, q).contains(
            i as usize,
        ),
        forall|a: int, b: int| 0 <= a < b < match_rows(lowered, q).len() ==> #[trigger] match_rows(lowered, q)[a]
            < #[trigger] match_rows(lowered, q)[b],
    decreases lowered.len(),
{
    if lowered.len() > 0 {
        let init = lowered.drop_last();
        lemma_match_rows(init, q);
        let prev = match_rows(init, q);
        let r = match_rows(lowered, q);
        let last = lowered.last();
        let n = lowered.len() - 1;
        match last.0 {
            Some(t) => lemma_contains_occurs(t, q),
            None => {},
        }
        match last.1 {
            Some(t) => lemma_contains_occurs(t, q),
            None => {},
        }
        assert forall|k: int| 0 <= k < r.len() implies (#[trigger] r[k]) < lowered.len() && row_holds(lowered[r[k] as int], q) by {
            if k < prev.len() {
                assert(r[k] == prev[k]);
                assert(lowered[prev[k] as int] == init[prev[k] as int]);
            } else {
                assert(r[k] == n as usize);
                assert(lowered[n] == last);
            }
        }
        assert forall|i: int| 0 <= i < lowered.len() && row_holds(#[trigger] lowered[i], q) implies r.contains(i as usize) by {
            if i < n {
                assert(init[i] == lowered[i]);
                let k = choose|k: int| 0 <= k < prev.len() && prev[k] == i as usize;
                assert(r[k] == prev[k]);
            } else {
                assert(lowered[i] == last);
                assert(r[r.len() - 1] == i as usize);
            }
        }
        assert forall|a: int, b: int| 0 <= a < b < r.len() implies #[trigger] r[a] < #[trigger] r[b] by {
            if b < prev.len() {
                assert(r[a] == prev[a] && r[b] == prev[b]);
            } else {
                assert(r[a] == prev[a]);
                assert(lowered[prev[a] as int] == init[prev[a] as int]);
            }
        }
    }
}

} // verus!
