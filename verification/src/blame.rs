//! Line-by-line authorship of a file, from `git blame --line-porcelain`.
use vstd::prelude::*;
use crate::git::{check_safe_ref, is_unsafe_ref, lit, strings_view, unsafe_ref_message};
use crate::text::{chars_of, lemma_splitn_nonempty, lines_seq, lines_str, parse_i64, parse_i64_exec, seq_eq, splitn_char, splitn_seq, strip_suffix, strip_suffix_exec, string_of, vviews};
use crate::view::is_hex_digit;

verus! {

/// What chrono writes for the UTC date of a Unix timestamp
/// (`DateTime::from_timestamp(ts, 0)` formatted `%Y-%m-%d`); none where chrono
/// has no date for it.
pub uninterp spec fn utc_date_text(ts: i64) -> Option<Seq<char>>;

/// The UTC date of a Unix timestamp as chrono writes it. Its result is named
/// `utc_date_text` of the timestamp; the calendar computation is not
/// restated.
#[verifier::external_body]
fn utc_date(ts: i64) -> (r: Option<String>)
    ensures
        match r {
            Some(d) => utc_date_text(ts) == Some(d@),
            None => utc_date_text(ts) is None,
        },
{
    chrono::DateTime::from_timestamp(ts, 0).map(|d| d.format("%Y-%m-%d").to_string())
}

/// The commit that last changed one line of a file.
#[derive(Clone, Debug, PartialEq, Eq)]
pub struct BlameEntry {
    pub hash: String,
    pub author: String,
    pub date: String,
    pub summary: String,
}

pub struct BlameEntryV {
    pub hash: Seq<char>,
    pub author: Seq<char>,
    pub date: Seq<char>,
    pub summary: Seq<char>,
}

impl View for BlameEntry {
    type V = BlameEntryV;

    open spec fn view(&self) -> BlameEntryV {
        BlameEntryV { hash: self.hash@, author: self.author@, date: self.date@, summary: self.summary@ }
    }
}

pub open spec fn blame_view(s: Seq<BlameEntry>) -> Seq<BlameEntryV> {
    s.map_values(|b: BlameEntry| b@)
}

/// What the porcelain reader keeps while reading: the entries so far, the
/// details remembered per commit (the first time a commit's line is seen),
/// and the commit, author, date and summary read last.
pub struct BlameState {
    pub entries: Seq<BlameEntryV>,
    pub cache: Seq<(Seq<char>, (Seq<char>, Seq<char>, Seq<char>))>,
    pub hash: Seq<char>,
    pub author: Seq<char>,
    pub date: Seq<char>,
    pub summary: Seq<char>,
}

/// The position of the details remembered for commit `h`, from `i` on.
pub open spec fn cache_find(cache: Seq<(Seq<char>, (Seq<char>, Seq<char>, Seq<char>))>, h: Seq<char>, i: int) -> Option<int>
    decreases cache.len() - i,
{
    if i < 0 || i >= cache.len() {
        None
    } else if cache[i].0 == h {
        Some(i)
    } else {
        cache_find(cache, h, i + 1)
    }
}

/// A full commit hash: forty hexadecimal digits.
pub open spec fn full_hash(s: Seq<char>) -> bool {
    s.len() == 40 && forall|i: int| 0 <= i < s.len() ==> #[trigger] is_hex_digit(s[i])
}

/// One porcelain line read: a tab-led content line adds an entry for the
/// current commit (with the details first remembered for it); `author`,
/// `author-time` (as a UTC date) and `summary` lines set those details; a
/// line led by a full hash starts the next commit.
pub open spec fn blame_step(st: BlameState, line: Seq<char>) -> BlameState {
    if line.len() > 0 && line[0] == '\t' {
        let (cache, info) = match cache_find(st.cache, st.hash, 0) {
            Some(k) => (st.cache, st.cache[k].1),
            None => (st.cache.push((st.hash, (st.author, st.date, st.summary))), (st.author, st.date, st.summary)),
        };
        BlameState {
            entries: st.entries.push(BlameEntryV { hash: st.hash, author: info.0, date: info.1, summary: info.2 }),
            cache,
            ..st
        }
    } else {
        let parts = splitn_seq(line, seq![' '], Some(2));
        let key = parts[0];
        if key == "author"@ {
            if parts.len() > 1 {
                BlameState { author: parts[1], ..st }
            } else {
                st
            }
        } else if key == "author-time"@ {
            if parts.len() > 1 && parse_i64(parts[1]) is Some && utc_date_text(parse_i64(parts[1])->0) is Some {
                BlameState { date: utc_date_text(parse_i64(parts[1])->0)->0, ..st }
            } else {
                st
            }
        } else if key == "summary"@ {
            if parts.len() > 1 {
                BlameState { summary: parts[1], ..st }
            } else {
                st
            }
        } else if full_hash(key) {
            BlameState { hash: key, ..st }
        } else {
            st
        }
    }
}

pub open spec fn blame_fold(lines: Seq<Seq<char>>) -> BlameState
    decreases lines.len(),
{
    if lines.len() == 0 {
        BlameState {
            entries: Seq::empty(),
            cache: Seq::empty(),
            hash: Seq::empty(),
            author: Seq::empty(),
            date: Seq::empty(),
            summary: Seq::empty(),
        }
    } else {
        blame_step(blame_fold(lines.drop_last()), lines.last())
    }
}

/// The entries of a `--line-porcelain` listing, one per line of the file.
pub open spec fn blame_entries(out: Seq<char>) -> Seq<BlameEntryV> {
    blame_fold(lines_seq(out)).entries
}

fn full_hash_exec(s: &Vec<char>) -> (r: bool)
    ensures
        r == full_hash(s@),
{
    if s.len() != 40 {
        return false;
    }
    let mut i: usize = 0;
    while i < s.len()
        invariant
            i <= s@.len(),
            forall|j: int| 0 <= j < i ==> #[trigger] is_hex_digit(s@[j]),
        decreases s.len() - i,
    {
        let c = s[i];
        if !(('0' <= c && c <= '9') || ('a' <= c && c <= 'f') || ('A' <= c && c <= 'F')) {
            assert(!is_hex_digit(s@[i as int]));
            return false;
        }
        i = i + 1;
    }
    true
}

fn is_word(p: &Vec<char>, s: &str) -> (r: bool)
    ensures
        r == (p@ == s@),
{
    let v = chars_of(s);
    seq_eq(p, &v)
}

/// Reads a `git blame --line-porcelain` listing.
pub fn parse_blame(output: &str) -> (r: Vec<BlameEntry>)
    ensures
        blame_view(r@) == blame_entries(output@),
{
    let lines = lines_str(output);
    let ghost ls = vviews(lines@);
    let mut entries: Vec<BlameEntry> = Vec::new();
    let mut cache: Vec<(Vec<char>, (Vec<char>, Vec<char>, Vec<char>))> = Vec::new();
    let mut hash: Vec<char> = Vec::new();
    let mut author: Vec<char> = Vec::new();
    let mut date: Vec<char> = Vec::new();
    let mut summary: Vec<char> = Vec::new();
    let mut i: usize = 0;
    while i < lines.len()
        invariant
            i <= lines@.len(),
            ls == vviews(lines@),
            ({
                let st = blame_fold(ls.take(i as int));
                &&& blame_view(entries@) == st.entries
                &&& cache@.map_values(
                    |c: (Vec<char>, (Vec<char>, Vec<char>, Vec<char>))| (c.0@, (c.1.0@, c.1.1@, c.1.2@)),
                ) == st.cache
                &&& hash@ == st.hash
                &&& author@ == st.author
                &&& date@ == st.date
                &&& summary@ == st.summary
            }),
        decreases lines.len() - i,
    {
        let ghost cv = cache@.map_values(|c: (Vec<char>, (Vec<char>, Vec<char>, Vec<char>))| (c.0@, (c.1.0@, c.1.1@, c.1.2@)));
        proof {
            assert(ls.take(i + 1).drop_last() =~= ls.take(i as int));
            assert(ls.take(i + 1).last() == lines@[i as int]@);
        }
        let line = &lines[i];
        if line.len() > 0 && line[0] == '\t' {
            let mut k: usize = 0;
            while k < cache.len()
                invariant
                    k <= cache@.len(),
                    cv == cache@.map_values(|c: (Vec<char>, (Vec<char>, Vec<char>, Vec<char>))| (c.0@, (c.1.0@, c.1.1@, c.1.2@))),
                    cache_find(cv, hash@, 0) == cache_find(cv, hash@, k as int),
                ensures
                    k <= cache@.len(),
                    cache_find(cv, hash@, 0) == cache_find(cv, hash@, k as int),
                    k < cache@.len() ==> cv[k as int].0 == hash@,
                decreases cache.len() - k,
            {
                if seq_eq(&cache[k].0, &hash) {
                    break;
                }
                k = k + 1;
            }
            let ghost st = blame_fold(ls.take(i as int));
            let ghost pe = entries@;
            if k < cache.len() {
                let e = BlameEntry {
                    hash: string_of(&hash),
                    author: string_of(&cache[k].1.0),
                    date: string_of(&cache[k].1.1),
                    summary: string_of(&cache[k].1.2),
                };
                entries.push(e);
                assert(blame_view(entries@) =~= pe.map_values(|b: BlameEntry| b@).push(e@));
            } else {
                let e = BlameEntry {
                    hash: string_of(&hash),
                    author: string_of(&author),
                    date: string_of(&date),
                    summary: string_of(&summary),
                };
                entries.push(e);
                let ghost pc = cache@;
                cache.push((hash.clone(), (author.clone(), date.clone(), summary.clone())));
                assert(blame_view(entries@) =~= pe.map_values(|b: BlameEntry| b@).push(e@));
                assert(cache@.map_values(|c: (Vec<char>, (Vec<char>, Vec<char>, Vec<char>))| (c.0@, (c.1.0@, c.1.1@, c.1.2@)))
                    =~= cv.push((hash@, (author@, date@, summary@))));
            }
        } else {
            let parts = splitn_char(line, ' ', 2);
            proof {
                lemma_splitn_nonempty(line@, seq![' '], Some(2));
                assert(vviews(parts@)[0] == parts@[0]@);
                if parts.len() > 1 {
                    assert(vviews(parts@)[1] == parts@[1]@);
                }
            }
            let key = &parts[0];
            if is_word(key, "author") {
                if parts.len() > 1 {
                    author = parts[1].clone();
                }
            } else if is_word(key, "author-time") {
                if parts.len() > 1 {
                    match parse_i64_exec(&parts[1]) {
                        Some(ts) => match utc_date(ts) {
                            Some(d) => {
                                date = chars_of(d.as_str());
                            },
                            None => {},
                        },
                        None => {},
                    }
                }
            } else if is_word(key, "summary") {
                if parts.len() > 1 {
                    summary = parts[1].clone();
                }
            } else if full_hash_exec(key) {
                hash = key.clone();
            }
        }
        i = i + 1;
    }
    assert(ls.take(lines@.len() as int) =~= ls);
    entries
}

/// The arguments of the blame command for a file at a ref; an error for a
/// ref that git would read as an option.
pub fn blame_args(blame_ref: &str, file_path: &str) -> (r: Result<Vec<String>, String>)
    ensures
        is_unsafe_ref(blame_ref@) ==> (r matches Err(e) && e@ == unsafe_ref_message(blame_ref@)),
        !is_unsafe_ref(blame_ref@) ==> (r matches Ok(a) && strings_view(a@) == seq![
            "blame"@,
            "--line-porcelain"@,
            blame_ref@,
            "--"@,
            file_path@,
        ]),
{
    match check_safe_ref(blame_ref) {
        Err(e) => Err(e),
        Ok(()) => {
            let mut a: Vec<String> = Vec::new();
            a.push(lit("blame"));
            a.push(lit("--line-porcelain"));
            a.push(lit(blame_ref));
            a.push(lit("--"));
            a.push(lit(file_path));
            assert(strings_view(a@) =~= seq!["blame"@, "--line-porcelain"@, blame_ref@, "--"@, file_path@]);
            Ok(a)
        },
    }
}

/// What to do when the blame at `blame_ref` failed with `err`: for a ref
/// ending in `^` (the parent of a commit, which a root commit lacks), the
/// arguments for the ref without it; otherwise the error itself.
pub fn blame_retry_args(blame_ref: &str, file_path: &str, err: String) -> (r: Result<Vec<String>, String>)
    ensures
        strip_suffix(blame_ref@, seq!['^']) is None ==> r == Err::<Vec<String>, String>(err),
        strip_suffix(blame_ref@, seq!['^']) matches Some(fb) ==> (if is_unsafe_ref(fb) {
            r matches Err(e) && e@ == unsafe_ref_message(fb)
        } else {
            r matches Ok(a) && strings_view(a@) == seq!["blame"@, "--line-porcelain"@, fb, "--"@, file_path@]
        }),
{
    let v = chars_of(blame_ref);
    let mut caret: Vec<char> = Vec::new();
    caret.push('^');
    match strip_suffix_exec(&v, &caret) {
        None => Err(err),
        Some(fb) => {
            let s = string_of(&fb);
            blame_args(s.as_str(), file_path)
        },
    }
}

/// The blame entries from the result of the blame command (a failure is
/// passed on).
pub fn get_file_blame(output: Result<String, String>) -> (r: Result<Vec<BlameEntry>, String>)
    ensures
        output matches Err(e) ==> r == Err::<Vec<BlameEntry>, String>(e),
        output matches Ok(o) ==> (r matches Ok(v) && blame_view(v@) == blame_entries(o@)),
{
    match output {
        Err(e) => Err(e),
        Ok(o) => Ok(parse_blame(o.as_str())),
    }
}


/// The revision the blame of a diff's file is taken at: HEAD when the
/// target is the working tree; the base of a range comparison when there is
/// one; else the target's parent (`target^`).
pub open spec fn blame_revision(target: Seq<char>, range_mode: bool, base: Option<Seq<char>>) -> Seq<char> {
    if target == "WORKING_TREE"@ {
        "HEAD"@
    } else if range_mode && base is Some {
        base->0
    } else {
        target + "^"@
    }
}

/// `blame_revision`.
pub fn blame_ref_for(target: &str, range_mode: bool, base: &Option<String>) -> (r: String)
    ensures
        r@ == blame_revision(target@, range_mode, crate::diff::opt_str_view(*base)),
{
    if crate::text::str_eq(target, "WORKING_TREE") {
        return lit("HEAD");
    }
    if range_mode {
        if let Some(b) = base {
            return lit(b.as_str());
        }
    }
    string_of(&crate::text::concat(&chars_of(target), &chars_of("^")))
}


// ---------------------------------------------------------------------------
// One entry per line of the file

/// The number of lines that start with a tab: in `--line-porcelain` output,
/// one per line of the file, whatever the line holds.
pub open spec fn tab_led_count(lines: Seq<Seq<char>>) -> nat
    decreases lines.len(),
{
    if lines.len() == 0 {
        0
    } else {
        tab_led_count(lines.drop_last()) + if lines.last().len() > 0 && lines.last()[0] == '\t' {
            1nat
        } else {
            0nat
        }
    }
}

proof fn lemma_blame_fold_count(lines: Seq<Seq<char>>)
    ensures
        blame_fold(lines).entries.len() == tab_led_count(lines),
    decreases lines.len(),
{
    if lines.len() > 0 {
        lemma_blame_fold_count(lines.drop_last());
    }
}

/// The blame has one entry for each tab-led content line of the listing,
/// an empty line of the file (a lone tab) included.
pub proof fn lemma_blame_one_entry_per_line(out: Seq<char>)
    ensures
        blame_entries(out).len() == tab_led_count(lines_seq(out)),
{
    lemma_blame_fold_count(lines_seq(out));
}

} // verus!
