//! The file report of a repository: how many tracked files have each
//! extension, and which files are the largest.
use vstd::prelude::*;
use crate::git::{lit, strings_view};
use crate::repos::{lowercase, to_lowercase};
use crate::sort::{lemma_sort_desc_all, lemma_sort_desc_map, lemma_sort_desc_pairwise, lemma_sort_desc_sorted, lemma_sort_desc_sum, lemma_sum_by_update, sort_desc, stable_sort_desc, sum_by};
use crate::summary::{tracked_file_list, tracked_files};
use crate::text::{chars_of, seq_eq, string_of};
use crate::view::{format_size, size_text};

verus! {

/// What `Path::extension` gives for a path (as text): the part of the
/// last component after its last `.`, if there is one that does not start
/// the component. Which characters separate components is fixed by the
/// platform the library is built for, so the result is the same for the
/// same text wherever one build runs.
pub uninterp spec fn path_extension(p: Seq<char>) -> Option<Seq<char>>;

/// `Path::new(p).extension()` as a string. Its result is named
/// `path_extension` of the argument; how `Path` splits components is not
/// restated.
#[verifier::external_body]
fn extension_of(p: &str) -> (r: Option<String>)
    ensures
        match r {
            Some(e) => path_extension(p@) == Some(e@),
            None => path_extension(p@) is None,
        },
{
    std::path::Path::new(p).extension().and_then(|s| s.to_str()).map(|s| s.to_string())
}

/// The extension key of a file: its extension (or `other`), lower-cased.
pub open spec fn ext_key(path: Seq<char>) -> Seq<char> {
    lowercase(
        match path_extension(path) {
            Some(e) => e,
            None => "other"@,
        },
    )
}

/// How many files have one extension.
#[derive(Clone, Debug, PartialEq, Eq)]
pub struct FileExtInfo {
    pub ext: String,
    pub count: usize,
}

/// A tracked file and its size.
#[derive(Clone, Debug, PartialEq, Eq)]
pub struct FileInfo {
    pub path: String,
    pub size_bytes: u64,
    pub size_formatted: String,
}

/// The file report: extensions by number of files (most first), and the
/// largest files (largest first).
#[derive(Clone, Debug, PartialEq, Eq)]
pub struct FilesReport {
    pub extensions: Vec<FileExtInfo>,
    pub largest_files: Vec<FileInfo>,
}

/// The most files the report lists as largest.
pub const LARGEST_FILES: usize = 10;

pub open spec fn exts_view(s: Seq<FileExtInfo>) -> Seq<(Seq<char>, nat)> {
    s.map_values(|e: FileExtInfo| (e.ext@, e.count as nat))
}

pub open spec fn infos_view(s: Seq<FileInfo>) -> Seq<(Seq<char>, u64, Seq<char>)> {
    s.map_values(|f: FileInfo| (f.path@, f.size_bytes, f.size_formatted@))
}

/// One more file with extension key `k`: its count goes up, or it is added
/// at the end with a count of one.
pub open spec fn add_ext(gs: Seq<(Seq<char>, nat)>, k: Seq<char>) -> Seq<(Seq<char>, nat)> {
    if exists|j: int| 0 <= j < gs.len() && (#[trigger] gs[j]).0 == k {
        let j = choose|j: int| 0 <= j < gs.len() && (#[trigger] gs[j]).0 == k;
        gs.update(j, (k, gs[j].1 + 1))
    } else {
        gs.push((k, 1nat))
    }
}

/// The extension keys with their numbers of files, in the order each key
/// first appears.
pub open spec fn ext_counts(keys: Seq<Seq<char>>) -> Seq<(Seq<char>, nat)>
    decreases keys.len(),
{
    if keys.len() == 0 {
        Seq::empty()
    } else {
        add_ext(ext_counts(keys.drop_last()), keys.last())
    }
}

pub open spec fn distinct_keys(gs: Seq<(Seq<char>, nat)>) -> bool {
    forall|i: int, j: int| 0 <= i < j < gs.len() ==> #[trigger] gs[i].0 != #[trigger] gs[j].0
}

proof fn lemma_ext_counts(keys: Seq<Seq<char>>)
    ensures
        distinct_keys(ext_counts(keys)),
        forall|i: int| 0 <= i < ext_counts(keys).len() ==> 1 <= #[trigger] ext_counts(keys)[i].1 <= keys.len(),
    decreases keys.len(),
{
    if keys.len() > 0 {
        lemma_ext_counts(keys.drop_last());
        let gs = ext_counts(keys.drop_last());
        let k = keys.last();
        let r = ext_counts(keys);
        if exists|j: int| 0 <= j < gs.len() && (#[trigger] gs[j]).0 == k {
            let j = choose|j: int| 0 <= j < gs.len() && (#[trigger] gs[j]).0 == k;
            assert forall|a: int, b: int| 0 <= a < b < r.len() implies #[trigger] r[a].0 != #[trigger] r[b].0 by {
                assert(r[a].0 == gs[a].0);
                assert(r[b].0 == gs[b].0);
            }
            assert forall|i: int| 0 <= i < r.len() implies 1 <= #[trigger] r[i].1 <= keys.len() by {
                if i != j {
                    assert(r[i] == gs[i]);
                }
            }
        } else {
            assert forall|a: int, b: int| 0 <= a < b < r.len() implies #[trigger] r[a].0 != #[trigger] r[b].0 by {
                assert(r[a] == gs[a]);
                if b < gs.len() {
                    assert(r[b] == gs[b]);
                }
            }
            assert forall|i: int| 0 <= i < r.len() implies 1 <= #[trigger] r[i].1 <= keys.len() by {
                if i < gs.len() {
                    assert(r[i] == gs[i]);
                }
            }
        }
    }
}

/// The size used for file `i`: the size that was read, else 0.
pub open spec fn size_at(sizes: Seq<Option<u64>>, i: int) -> u64 {
    if 0 <= i < sizes.len() {
        match sizes[i] {
            Some(n) => n,
            None => 0,
        }
    } else {
        0
    }
}

/// The files with their sizes, in listing order.
pub open spec fn sized_files(files: Seq<Seq<char>>, sizes: Seq<Option<u64>>) -> Seq<(Seq<char>, u64, Seq<char>)> {
    Seq::new(files.len(), |i: int| (files[i], size_at(sizes, i), size_text(size_at(sizes, i) as nat)))
}

/// The report of the files `files` (in listing order) with extension keys
/// `keys` and sizes `sizes`: the extensions by number of files, most first,
/// equal counts in first-appearance order; the `LARGEST_FILES` largest
/// files, largest first, equal sizes in listing order.
pub open spec fn report_of(files: Seq<Seq<char>>, keys: Seq<Seq<char>>, sizes: Seq<Option<u64>>) -> (
    Seq<(Seq<char>, nat)>,
    Seq<(Seq<char>, u64, Seq<char>)>,
) {
    let exts = sort_desc(ext_counts(keys), |e: (Seq<char>, nat)| e.1 as int);
    let by_size = sort_desc(sized_files(files, sizes), |f: (Seq<char>, u64, Seq<char>)| f.1 as int);
    (exts, if by_size.len() > LARGEST_FILES { by_size.take(LARGEST_FILES as int) } else { by_size })
}

fn copy_chars(v: &Vec<char>) -> (r: Vec<char>)
    ensures
        r@ == v@,
{
    v.clone()
}

/// The file report (see `report_of`) of the listed files, given each file's
/// extension key and size.
pub fn files_report_from_keys(files: &Vec<String>, keys: &Vec<String>, sizes: &Vec<Option<u64>>) -> (r: FilesReport)
    requires
        files@.len() == keys@.len(),
    ensures
        (exts_view(r.extensions@), infos_view(r.largest_files@)) == report_of(strings_view(files@), strings_view(keys@), sizes@),
{
    let ghost kv = strings_view(keys@);
    // Counting per extension key.
    let mut names: Vec<Vec<char>> = Vec::new();
    let mut counts: Vec<usize> = Vec::new();
    let mut i: usize = 0;
    proof {
        assert(kv.take(0) =~= Seq::<Seq<char>>::empty());
    }
    while i < keys.len()
        invariant
            i <= keys@.len(),
            kv == strings_view(keys@),
            names@.len() == counts@.len(),
            ext_counts(kv.take(i as int)) == Seq::new(names@.len(), |j: int| (names@[j]@, counts@[j] as nat)),
            forall|j: int| 0 <= j < counts@.len() ==> #[trigger] counts@[j] <= i,
        decreases keys.len() - i,
    {
        let ghost gs = ext_counts(kv.take(i as int));
        proof {
            assert(kv.take(i + 1).drop_last() =~= kv.take(i as int));
            assert(kv.take(i + 1).last() == keys@[i as int]@);
            lemma_ext_counts(kv.take(i as int));
        }
        let k = chars_of(keys[i].as_str());
        let mut j: usize = 0;
        while j < names.len()
            invariant
                j <= names@.len(),
                names@.len() == counts@.len(),
                gs == Seq::new(names@.len(), |m: int| (names@[m]@, counts@[m] as nat)),
                forall|m: int| 0 <= m < j ==> gs[m].0 != k@,
            ensures
                j <= names@.len(),
                forall|m: int| 0 <= m < j ==> gs[m].0 != k@,
                j < names@.len() ==> gs[j as int].0 == k@,
            decreases names.len() - j,
        {
            if seq_eq(&names[j], &k) {
                break;
            }
            j = j + 1;
        }
        if j < names.len() {
            let c = counts[j];
            counts.set(j, c + 1);
            proof {
                let jj = choose|m: int| 0 <= m < gs.len() && (#[trigger] gs[m]).0 == k@;
                assert(jj == j);
                assert(ext_counts(kv.take(i + 1)) =~= Seq::new(names@.len(), |m: int| (names@[m]@, counts@[m] as nat)));
            }
        } else {
            names.push(copy_chars(&k));
            counts.push(1);
            proof {
                assert(ext_counts(kv.take(i + 1)) =~= Seq::new(names@.len(), |m: int| (names@[m]@, counts@[m] as nat)));
            }
        }
        i = i + 1;
    }
    assert(kv.take(keys@.len() as int) =~= kv);
    let ghost ec = ext_counts(kv);
    let mut exts: Vec<FileExtInfo> = Vec::new();
    let mut ekeys: Vec<i128> = Vec::new();
    let mut m: usize = 0;
    while m < names.len()
        invariant
            m <= names@.len(),
            names@.len() == counts@.len(),
            ec == Seq::new(names@.len(), |j: int| (names@[j]@, counts@[j] as nat)),
            exts_view(exts@) == ec.take(m as int),
            ekeys@.len() == exts@.len(),
            forall|j: int| 0 <= j < exts@.len() ==> ekeys@[j] == (#[trigger] exts@[j]).count,
        decreases names.len() - m,
    {
        let e = FileExtInfo { ext: string_of(&names[m]), count: counts[m] };
        let ghost pe = exts@;
        let ghost pk = ekeys@;
        exts.push(e);
        ekeys.push(counts[m] as i128);
        proof {
            assert(exts_view(exts@) =~= exts_view(pe).push((e.ext@, e.count as nat)));
            assert(ec[m as int] == (names@[m as int]@, counts@[m as int] as nat));
            assert(ec.take(m + 1) =~= ec.take(m as int).push(ec[m as int]));
            assert(exts_view(exts@) =~= ec.take(m + 1));
            assert forall|j: int| 0 <= j < exts@.len() implies ekeys@[j] == (#[trigger] exts@[j]).count by {
                if j < pe.len() {
                    assert(exts@[j] == pe[j]);
                    assert(ekeys@[j] == pk[j]);
                }
            }
        }
        m = m + 1;
    }
    assert(ec.take(names@.len() as int) =~= ec);
    let ghost eb = exts@;
    let ghost ke = |e: FileExtInfo| e.count as int;
    let sorted_exts = stable_sort_desc(exts, ekeys, Ghost(ke));
    proof {
        lemma_sort_desc_map(eb, ke, |e: FileExtInfo| (e.ext@, e.count as nat), |e: (Seq<char>, nat)| e.1 as int);
    }
    // Sizes.
    let ghost fv = strings_view(files@);
    let mut infos: Vec<FileInfo> = Vec::new();
    let mut skeys: Vec<i128> = Vec::new();
    let mut f: usize = 0;
    while f < files.len()
        invariant
            f <= files@.len(),
            fv == strings_view(files@),
            infos_view(infos@) == sized_files(fv, sizes@).take(f as int),
            skeys@.len() == infos@.len(),
            forall|j: int| 0 <= j < infos@.len() ==> skeys@[j] == (#[trigger] infos@[j]).size_bytes,
        decreases files.len() - f,
    {
        let size: u64 = if f < sizes.len() {
            match sizes[f] {
                Some(n) => n,
                None => 0,
            }
        } else {
            0
        };
        let info = FileInfo { path: files[f].clone(), size_bytes: size, size_formatted: format_size(size) };
        let ghost pi = infos@;
        let ghost pk = skeys@;
        infos.push(info);
        skeys.push(size as i128);
        proof {
            assert(size == size_at(sizes@, f as int));
            assert(fv[f as int] == files@[f as int]@);
            assert(infos_view(infos@) =~= infos_view(pi).push((files@[f as int]@, size, info.size_formatted@)));
            assert(sized_files(fv, sizes@).take(f + 1) =~= sized_files(fv, sizes@).take(f as int).push(sized_files(fv, sizes@)[f as int]));
            assert(infos_view(infos@) =~= sized_files(fv, sizes@).take(f + 1));
            assert forall|j: int| 0 <= j < infos@.len() implies skeys@[j] == (#[trigger] infos@[j]).size_bytes by {
                if j < pi.len() {
                    assert(infos@[j] == pi[j]);
                    assert(skeys@[j] == pk[j]);
                }
            }
        }
        f = f + 1;
    }
    assert(sized_files(fv, sizes@).take(files@.len() as int) =~= sized_files(fv, sizes@));
    let ghost ib = infos@;
    let ghost ki = |x: FileInfo| x.size_bytes as int;
    let mut largest = stable_sort_desc(infos, skeys, Ghost(ki));
    proof {
        lemma_sort_desc_map(
            ib,
            ki,
            |x: FileInfo| (x.path@, x.size_bytes, x.size_formatted@),
            |x: (Seq<char>, u64, Seq<char>)| x.1 as int,
        );
    }
    if largest.len() > LARGEST_FILES {
        let ghost before = largest@;
        largest.truncate(LARGEST_FILES);
        assert(infos_view(largest@) =~= infos_view(before).take(LARGEST_FILES as int));
    }
    FilesReport { extensions: sorted_exts, largest_files: largest }
}

/// The file report of a repository from its `ls-files` listing and the
/// sizes of the listed files (in the order of `tracked_files`): extension
/// keys are the lower-cased extensions, `other` for files without one.
pub fn get_files_report(ls_output: &str, sizes: &Vec<Option<u64>>) -> (r: FilesReport)
    ensures
        (exts_view(r.extensions@), infos_view(r.largest_files@)) == report_of(
            tracked_file_list(ls_output@),
            tracked_file_list(ls_output@).map_values(|p: Seq<char>| ext_key(p)),
            sizes@,
        ),
{
    let files = tracked_files(ls_output);
    let mut keys: Vec<String> = Vec::new();
    let mut i: usize = 0;
    while i < files.len()
        invariant
            i <= files@.len(),
            keys@.len() == i,
            forall|j: int| 0 <= j < i ==> (#[trigger] keys@[j])@ == ext_key(files@[j]@),
        decreases files.len() - i,
    {
        let e = match extension_of(files[i].as_str()) {
            Some(e) => e,
            None => lit("other"),
        };
        let k = to_lowercase(e.as_str());
        let ghost pk = keys@;
        keys.push(k);
        proof {
            assert forall|j: int| 0 <= j < i + 1 implies (#[trigger] keys@[j])@ == ext_key(files@[j]@) by {
                if j < i {
                    assert(keys@[j] == pk[j]);
                }
            }
        }
        i = i + 1;
    }
    proof {
        assert(strings_view(keys@) =~= strings_view(files@).map_values(|p: Seq<char>| ext_key(p)));
    }
    files_report_from_keys(&files, &keys, sizes)
}


// ---------------------------------------------------------------------------
// Laws

proof fn lemma_ext_counts_total(keys: Seq<Seq<char>>)
    ensures
        sum_by(ext_counts(keys), |e: (Seq<char>, nat)| e.1 as int) == keys.len(),
    decreases keys.len(),
{
    if keys.len() > 0 {
        let f = |e: (Seq<char>, nat)| e.1 as int;
        lemma_ext_counts_total(keys.drop_last());
        lemma_ext_counts(keys.drop_last());
        let gs = ext_counts(keys.drop_last());
        let k = keys.last();
        if exists|j: int| 0 <= j < gs.len() && (#[trigger] gs[j]).0 == k {
            let j = choose|j: int| 0 <= j < gs.len() && (#[trigger] gs[j]).0 == k;
            let y: (Seq<char>, nat) = (k, gs[j].1 + 1);
            lemma_sum_by_update(gs, f, j, y);
            assert(ext_counts(keys) == add_ext(gs, k));
            assert(add_ext(gs, k) == gs.update(j, y));
            assert(f(y) == f(gs[j]) + 1);
        } else {
            assert(gs.push((k, 1nat)).drop_last() =~= gs);
            assert(sum_by(gs.push((k, 1nat)), f) == sum_by(gs, f) + f((k, 1nat)));
        }
    }
}

/// In a file report every extension appears once, the extensions' counts
/// add up to the number of files, the extensions come most files first and
/// the largest files largest first, at most `LARGEST_FILES` of them.
pub proof fn lemma_files_report(files: Seq<Seq<char>>, keys: Seq<Seq<char>>, sizes: Seq<Option<u64>>)
    ensures
        ({
            let (exts, largest) = report_of(files, keys, sizes);
            &&& sum_by(exts, |e: (Seq<char>, nat)| e.1 as int) == keys.len()
            &&& forall|i: int, j: int| 0 <= i < exts.len() && 0 <= j < exts.len() && i != j
                ==> (#[trigger] exts[i]).0 != (#[trigger] exts[j]).0
            &&& forall|i: int, j: int| 0 <= i < j < exts.len() ==> (#[trigger] exts[i]).1 >= (#[trigger] exts[j]).1
            &&& forall|i: int, j: int| 0 <= i < j < largest.len() ==> (#[trigger] largest[i]).1 >= (#[trigger] largest[j]).1
            &&& largest.len() == if files.len() > LARGEST_FILES { LARGEST_FILES as nat } else { files.len() }
        }),
{
    let ke = |e: (Seq<char>, nat)| e.1 as int;
    let kf = |f: (Seq<char>, u64, Seq<char>)| f.1 as int;
    let ec = ext_counts(keys);
    let (exts, largest) = report_of(files, keys, sizes);
    lemma_ext_counts_total(keys);
    lemma_sort_desc_sum(ec, ke, ke);
    lemma_ext_counts(keys);
    let p = |a: (Seq<char>, nat), b: (Seq<char>, nat)| a.0 != b.0;
    assert forall|i: int, j: int| 0 <= i < ec.len() && 0 <= j < ec.len() && i != j implies p(#[trigger] ec[i], #[trigger] ec[j]) by {
        if i < j {
            assert(ec[i].0 != ec[j].0);
        } else {
            assert(ec[j].0 != ec[i].0);
        }
    }
    lemma_sort_desc_pairwise(ec, ke, p);
    assert forall|i: int, j: int| 0 <= i < exts.len() && 0 <= j < exts.len() && i != j implies (#[trigger] exts[i]).0 != (#[trigger] exts[j]).0 by {
        assert(p(exts[i], exts[j]));
    }
    lemma_sort_desc_sorted(ec, ke);
    assert forall|i: int, j: int| 0 <= i < j < exts.len() implies (#[trigger] exts[i]).1 >= (#[trigger] exts[j]).1 by {
        assert(ke(exts[i]) >= ke(exts[j]));
    }
    let sf = sized_files(files, sizes);
    let by_size = sort_desc(sf, kf);
    lemma_sort_desc_sorted(sf, kf);
    lemma_sort_desc_all(sf, kf, |f: (Seq<char>, u64, Seq<char>)| true);
    assert forall|i: int, j: int| 0 <= i < j < largest.len() implies (#[trigger] largest[i]).1 >= (#[trigger] largest[j]).1 by {
        assert(largest[i] == by_size[i]);
        assert(largest[j] == by_size[j]);
        assert(kf(by_size[i]) >= kf(by_size[j]));
    }
}

} // verus!
