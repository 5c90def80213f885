//! The repository list of the home view: searching and ordering.
use vstd::prelude::*;
use crate::sort::{bag_by, key_before, lemma_sort_by_key_sorted, lemma_sort_by_key_stable, lemma_sort_rel_bag, rel_sorted, sort_rel, stable_sort_by_keys, with_key};
use vstd::multiset::Multiset;
use crate::text::{chars_of, contains_exec, contains_seq, filter_map, lemma_filter_map_all, lemma_filter_map_take, trim, trim_str};

verus! {

/// What `str::to_lowercase` returns for a string: its Unicode lower case,
/// the same for the same string on every machine.
pub uninterp spec fn lowercase(s: Seq<char>) -> Seq<char>;

/// `str::to_lowercase`. Its result is named `lowercase` of the argument;
/// the Unicode case tables it applies are not restated.
#[verifier::external_body]
pub(crate) fn to_lowercase(s: &str) -> (r: String)
    ensures
        r@ == lowercase(s@),
{
    s.to_lowercase()
}

/// A repository as the list shows it, with its position in the settings.
#[derive(Clone, Debug, PartialEq, Eq)]
pub struct RepoFilterSortInput {
    pub index: usize,
    pub name: String,
    pub path: String,
    pub last_commit_date: String,
    pub language: String,
    pub framework: String,
}

pub struct RepoInputV {
    pub index: usize,
    pub name: Seq<char>,
    pub path: Seq<char>,
    pub last_commit_date: Seq<char>,
    pub language: Seq<char>,
    pub framework: Seq<char>,
}

impl View for RepoFilterSortInput {
    type V = RepoInputV;

    open spec fn view(&self) -> RepoInputV {
        RepoInputV {
            index: self.index,
            name: self.name@,
            path: self.path@,
            last_commit_date: self.last_commit_date@,
            language: self.language@,
            framework: self.framework@,
        }
    }
}

pub open spec fn inputs_view(s: Seq<RepoFilterSortInput>) -> Seq<RepoInputV> {
    s.map_values(|r: RepoFilterSortInput| r@)
}

/// The lower-cased fields of a repository that the search looks at.
#[derive(Clone, Debug, PartialEq, Eq)]
pub struct RepoSearchKeys {
    pub name: String,
    pub path: String,
    pub language: String,
    pub framework: String,
}

pub struct SearchKeysV {
    pub name: Seq<char>,
    pub path: Seq<char>,
    pub language: Seq<char>,
    pub framework: Seq<char>,
}

impl View for RepoSearchKeys {
    type V = SearchKeysV;

    open spec fn view(&self) -> SearchKeysV {
        SearchKeysV { name: self.name@, path: self.path@, language: self.language@, framework: self.framework@ }
    }
}

pub open spec fn keys_view(s: Seq<RepoSearchKeys>) -> Seq<SearchKeysV> {
    s.map_values(|k: RepoSearchKeys| k@)
}

/// The search keys `lowercase` gives for a repository.
pub open spec fn lowered(r: RepoInputV) -> SearchKeysV {
    SearchKeysV {
        name: lowercase(r.name),
        path: lowercase(r.path),
        language: lowercase(r.language),
        framework: lowercase(r.framework),
    }
}

/// A repository is found by a (lower-cased) query when one of its
/// lower-cased name, path, language or framework contains it.
pub open spec fn found_by(k: SearchKeysV, q: Seq<char>) -> bool {
    contains_seq(k.name, q) || contains_seq(k.path, q) || contains_seq(k.language, q) || contains_seq(k.framework, q)
}

/// The sort key of a repository for a sort mode: the lower-cased name for
/// modes 0 and 1; for modes 2 and 3 the last commit date, repositories
/// without a date ranked after the others.
pub open spec fn repo_key(p: (RepoInputV, SearchKeysV), mode: nat) -> (u8, Seq<char>) {
    if mode <= 1 {
        (0u8, p.1.name)
    } else {
        (if p.0.last_commit_date.len() == 0 { 1u8 } else { 0u8 }, p.0.last_commit_date)
    }
}

/// Whether a sort mode orders its keys descending: name Z to A (1) and
/// newest first (2).
pub open spec fn mode_desc(mode: nat) -> bool {
    mode == 1 || mode == 2
}

/// The repositories (each with its search keys) found by the query `q` (all
/// when `q` is empty), in the order of sort mode `mode`: 0 name A to Z, 1 name
/// Z to A, 2 newest commit first, 3 oldest first, any other the given order.
/// Equal keys keep their order.
pub open spec fn arranged(pairs: Seq<(RepoInputV, SearchKeysV)>, q: Seq<char>, mode: nat) -> Seq<RepoInputV> {
    arranged_pairs(pairs, q, mode).map_values(|p: (RepoInputV, SearchKeysV)| p.0)
}

/// The repositories (with their search keys) found by the query `q`, in
/// their given order; all of them when `q` is empty.
pub open spec fn found_pairs(pairs: Seq<(RepoInputV, SearchKeysV)>, q: Seq<char>) -> Seq<(RepoInputV, SearchKeysV)> {
    if q.len() == 0 {
        pairs
    } else {
        filter_map(pairs, |p: (RepoInputV, SearchKeysV)| if found_by(p.1, q) { Some(p) } else { None })
    }
}

/// The repositories found by `q`, with their search keys, in the order of
/// sort mode `mode` (see `arranged`).
pub open spec fn arranged_pairs(pairs: Seq<(RepoInputV, SearchKeysV)>, q: Seq<char>, mode: nat) -> Seq<(RepoInputV, SearchKeysV)> {
    let kept = found_pairs(pairs, q);
    let sorted = if mode <= 3 {
        sort_rel(
            kept,
            |a: (RepoInputV, SearchKeysV), b: (RepoInputV, SearchKeysV)| key_before(repo_key(a, mode), repo_key(b, mode), mode_desc(mode)),
        )
    } else {
        kept
    };
    sorted
}

pub open spec fn pairs_view(s: Seq<(RepoFilterSortInput, RepoSearchKeys)>) -> Seq<(RepoInputV, SearchKeysV)> {
    s.map_values(|p: (RepoFilterSortInput, RepoSearchKeys)| (p.0@, p.1@))
}

pub open spec fn zip_views(items: Seq<RepoFilterSortInput>, keys: Seq<RepoSearchKeys>) -> Seq<(RepoInputV, SearchKeysV)> {
    Seq::new(items.len(), |i: int| (items[i]@, keys[i]@))
}

fn clone_input(r: &RepoFilterSortInput) -> (c: RepoFilterSortInput)
    ensures
        c@ == r@,
{
    RepoFilterSortInput {
        index: r.index,
        name: r.name.clone(),
        path: r.path.clone(),
        last_commit_date: r.last_commit_date.clone(),
        language: r.language.clone(),
        framework: r.framework.clone(),
    }
}

fn clone_keys(k: &RepoSearchKeys) -> (c: RepoSearchKeys)
    ensures
        c@ == k@,
{
    RepoSearchKeys {
        name: k.name.clone(),
        path: k.path.clone(),
        language: k.language.clone(),
        framework: k.framework.clone(),
    }
}

/// Searches and orders the repositories (see `arranged`), given each one's
/// lower-cased search keys and the lower-cased, trimmed query.
pub fn filter_and_sort_by_keys(
    items: Vec<RepoFilterSortInput>,
    keys: Vec<RepoSearchKeys>,
    query: &str,
    sort_by: usize,
) -> (r: Vec<RepoFilterSortInput>)
    requires
        items@.len() == keys@.len(),
    ensures
        inputs_view(r@) == arranged(zip_views(items@, keys@), query@, sort_by as nat),
{
    let ghost zv = zip_views(items@, keys@);
    let q = chars_of(query);
    let ghost f = |p: (RepoInputV, SearchKeysV)| if found_by(p.1, q@) { Some(p) } else { None };
    let mut kept: Vec<(RepoFilterSortInput, RepoSearchKeys)> = Vec::new();
    let mut i: usize = 0;
    while i < items.len()
        invariant
            i <= items@.len(),
            items@.len() == keys@.len(),
            zv == zip_views(items@, keys@),
            q@ == query@,
            f == (|p: (RepoInputV, SearchKeysV)| if found_by(p.1, q@) { Some(p) } else { None }),
            q@.len() == 0 ==> pairs_view(kept@) == zv.take(i as int),
            q@.len() > 0 ==> pairs_view(kept@) == filter_map(zv.take(i as int), f),
        decreases items.len() - i,
    {
        let it = &items[i];
        let k = &keys[i];
        proof {
            lemma_filter_map_take(zv, f, i as int);
            assert(zv[i as int] == (it@, k@));
        }
        let keep = if q.len() == 0 {
            true
        } else {
            let kn = chars_of(k.name.as_str());
            let kp = chars_of(k.path.as_str());
            let kl = chars_of(k.language.as_str());
            let kf = chars_of(k.framework.as_str());
            contains_exec(&kn, &q) || contains_exec(&kp, &q) || contains_exec(&kl, &q) || contains_exec(&kf, &q)
        };
        let ghost prev = kept@;
        if keep {
            let pair = (clone_input(it), clone_keys(k));
            kept.push(pair);
            proof {
                assert(pairs_view(kept@) =~= pairs_view(prev).push((it@, k@)));
            }
        }
        proof {
            if q@.len() == 0 {
                assert(zv.take(i + 1) =~= zv.take(i as int).push(zv[i as int]));
            }
        }
        i = i + 1;
    }
    proof {
        lemma_filter_map_all(zv, f);
        assert(zv.take(items@.len() as int) =~= zv);
    }
    let ghost kv = pairs_view(kept@);
    let sorted = if sort_by <= 3 {
        let mode = sort_by;
        let desc = mode == 1 || mode == 2;
        let mut sk: Vec<(u8, Vec<char>)> = Vec::new();
        let mut j: usize = 0;
        let ghost key = |p: (RepoFilterSortInput, RepoSearchKeys)| repo_key((p.0@, p.1@), mode as nat);
        while j < kept.len()
            invariant
                j <= kept@.len(),
                sk@.len() == j,
                key == (|p: (RepoFilterSortInput, RepoSearchKeys)| repo_key((p.0@, p.1@), mode as nat)),
                mode == sort_by,
                mode <= 3,
                forall|m: int| 0 <= m < j ==> (sk@[m].0, sk@[m].1@) == key(#[trigger] kept@[m]),
            decreases kept.len() - j,
        {
            let p = &kept[j];
            let kk: (u8, Vec<char>) = if mode <= 1 {
                (0, chars_of(p.1.name.as_str()))
            } else {
                let d = chars_of(p.0.last_commit_date.as_str());
                (if d.len() == 0 { 1 } else { 0 }, d)
            };
            let ghost prev = sk@;
            sk.push(kk);
            proof {
                assert forall|m: int| 0 <= m < j + 1 implies (sk@[m].0, sk@[m].1@) == key(#[trigger] kept@[m]) by {
                    if m < j {
                        assert(sk@[m] == prev[m]);
                    }
                }
            }
            j = j + 1;
        }
        let ghost kept_seq = kept@;
        let s = stable_sort_by_keys(kept, sk, desc, Ghost(key));
        proof {
            let ra = |a: (RepoFilterSortInput, RepoSearchKeys), b: (RepoFilterSortInput, RepoSearchKeys)| key_before(key(a), key(b), desc);
            let rb = |a: (RepoInputV, SearchKeysV), b: (RepoInputV, SearchKeysV)| key_before(repo_key(a, mode as nat), repo_key(b, mode as nat), mode_desc(mode as nat));
            let g = |p: (RepoFilterSortInput, RepoSearchKeys)| (p.0@, p.1@);
            crate::sort::lemma_sort_rel_map(kept_seq, ra, g, rb);
        }
        s
    } else {
        kept
    };
    let mut out: Vec<RepoFilterSortInput> = Vec::new();
    let mut j: usize = 0;
    let ghost sv = pairs_view(sorted@);
    while j < sorted.len()
        invariant
            j <= sorted@.len(),
            sv == pairs_view(sorted@),
            inputs_view(out@) == sv.take(j as int).map_values(|p: (RepoInputV, SearchKeysV)| p.0),
        decreases sorted.len() - j,
    {
        let c = clone_input(&sorted[j].0);
        let ghost prev = out@;
        out.push(c);
        proof {
            assert(sv[j as int].0 == c@);
            assert(sv.take(j + 1) =~= sv.take(j as int).push(sv[j as int]));
            assert(inputs_view(out@) =~= inputs_view(prev).push(c@));
            assert(sv.take(j as int).push(sv[j as int]).map_values(|p: (RepoInputV, SearchKeysV)| p.0)
                =~= sv.take(j as int).map_values(|p: (RepoInputV, SearchKeysV)| p.0).push(c@));
        }
        j = j + 1;
    }
    assert(sv.take(sorted@.len() as int) =~= sv);
    out
}

/// The home view's repository list: the repositories whose name, path,
/// language or framework contains the trimmed search text (ignoring case),
/// in the order of sort mode `sort_by` (see `arranged`).
pub fn filter_and_sort_repositories(
    items: Vec<RepoFilterSortInput>,
    search_query: &str,
    sort_by: usize,
) -> (r: Vec<RepoFilterSortInput>)
    ensures
        inputs_view(r@) == arranged(
            inputs_view(items@).map_values(|x: RepoInputV| (x, lowered(x))),
            lowercase(trim(search_query@)),
            sort_by as nat,
        ),
{
    let tq = trim_str(search_query);
    let tqs = crate::text::string_of(&tq);
    let q = to_lowercase(tqs.as_str());
    let mut keys: Vec<RepoSearchKeys> = Vec::new();
    let mut i: usize = 0;
    while i < items.len()
        invariant
            i <= items@.len(),
            keys@.len() == i,
            forall|m: int| 0 <= m < i ==> #[trigger] keys@[m]@ == lowered(items@[m]@),
        decreases items.len() - i,
    {
        let it = &items[i];
        let k = RepoSearchKeys {
            name: to_lowercase(it.name.as_str()),
            path: to_lowercase(it.path.as_str()),
            language: to_lowercase(it.language.as_str()),
            framework: to_lowercase(it.framework.as_str()),
        };
        let ghost prev = keys@;
        keys.push(k);
        proof {
            assert forall|m: int| 0 <= m < i + 1 implies #[trigger] keys@[m]@ == lowered(items@[m]@) by {
                if m < i {
                    assert(keys@[m] == prev[m]);
                }
            }
        }
        i = i + 1;
    }
    proof {
        assert(zip_views(items@, keys@) =~= inputs_view(items@).map_values(|x: RepoInputV| (x, lowered(x))));
    }
    filter_and_sort_by_keys(items, keys, q.as_str(), sort_by)
}


/// The repository list is ordered by the chosen key and holds the found
/// repositories: for sort modes 0 to 3 no repository's key comes before the
/// key of one listed ahead of it, and in every mode the list holds exactly
/// the repositories the query finds, each as often as it is found.
pub proof fn lemma_arranged_ordered(pairs: Seq<(RepoInputV, SearchKeysV)>, q: Seq<char>, mode: nat)
    ensures
        mode <= 3 ==> rel_sorted(
            arranged_pairs(pairs, q, mode),
            |a: (RepoInputV, SearchKeysV), b: (RepoInputV, SearchKeysV)| key_before(repo_key(a, mode), repo_key(b, mode), mode_desc(mode)),
        ),
        bag_by(arranged_pairs(pairs, q, mode), |p: (RepoInputV, SearchKeysV)| Multiset::singleton(p))
            == bag_by(found_pairs(pairs, q), |p: (RepoInputV, SearchKeysV)| Multiset::singleton(p)),
{
    let key = |p: (RepoInputV, SearchKeysV)| repo_key(p, mode);
    let kept = found_pairs(pairs, q);
    let before = |a: (RepoInputV, SearchKeysV), b: (RepoInputV, SearchKeysV)| key_before(repo_key(a, mode), repo_key(b, mode), mode_desc(mode));
    if mode <= 3 {
        lemma_sort_by_key_sorted(kept, key, mode_desc(mode));
        assert((|a: (RepoInputV, SearchKeysV), b: (RepoInputV, SearchKeysV)| key_before(key(a), key(b), mode_desc(mode))) =~= before);
        lemma_sort_rel_bag(kept, before, |p: (RepoInputV, SearchKeysV)| Multiset::singleton(p));
    }
}


/// The repository list keeps repositories of equal sort key in the order
/// they were found: for sort modes 0 to 3 and every key, the repositories
/// with that key come out in the order of `found_pairs`.
pub proof fn lemma_arranged_stable(pairs: Seq<(RepoInputV, SearchKeysV)>, q: Seq<char>, mode: nat, k: (u8, Seq<char>))
    requires
        mode <= 3,
    ensures
        with_key(arranged_pairs(pairs, q, mode), |p: (RepoInputV, SearchKeysV)| repo_key(p, mode), k)
            == with_key(found_pairs(pairs, q), |p: (RepoInputV, SearchKeysV)| repo_key(p, mode), k),
{
    let key = |p: (RepoInputV, SearchKeysV)| repo_key(p, mode);
    let before = |a: (RepoInputV, SearchKeysV), b: (RepoInputV, SearchKeysV)| key_before(repo_key(a, mode), repo_key(b, mode), mode_desc(mode));
    assert((|a: (RepoInputV, SearchKeysV), b: (RepoInputV, SearchKeysV)| key_before(key(a), key(b), mode_desc(mode))) =~= before);
    lemma_sort_by_key_stable(found_pairs(pairs, q), key, mode_desc(mode), k);
}

} // verus!
