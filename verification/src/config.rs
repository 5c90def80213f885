//! Settings the dashboard keeps: repositories, members, preferences.
use vstd::prelude::*;
use crate::git::{parse_ssh_repo, ssh_repo};

verus! {

/// Display language of the interface.
#[derive(Clone, Copy, Debug, PartialEq, Eq, Structural, Hash)]
pub enum Language {
    English,
    Japanese,
}

impl Language {
    /// The language's own name.
    pub fn label(&self) -> (r: &'static str)
        ensures
            *self == Language::English ==> r@ == "English"@,
            *self == Language::Japanese ==> r@ == "日本語"@,
    {
        match self {
            Language::English => "English",
            Language::Japanese => "日本語",
        }
    }

    /// Every language, in menu order.
    pub fn all() -> (r: Vec<Language>)
        ensures
            r@ == seq![Language::English, Language::Japanese],
    {
        let mut r = Vec::new();
        r.push(Language::English);
        r.push(Language::Japanese);
        assert(r@ =~= seq![Language::English, Language::Japanese]);
        r
    }
}

impl Default for Language {
    fn default() -> (r: Language)
        ensures
            r == Language::English,
    {
        Language::English
    }
}

/// A registered repository: a local path or an `ssh://` locator.
#[derive(Clone, Debug, PartialEq, Eq)]
pub struct Repository {
    pub name: String,
    pub path: String,
    pub host: Option<String>,
}

pub struct RepositoryV {
    pub name: Seq<char>,
    pub path: Seq<char>,
    pub host: Option<Seq<char>>,
}

impl View for Repository {
    type V = RepositoryV;

    open spec fn view(&self) -> RepositoryV {
        RepositoryV {
            name: self.name@,
            path: self.path@,
            host: match self.host {
                Some(h) => Some(h@),
                None => None,
            },
        }
    }
}

pub open spec fn repos_view(s: Seq<Repository>) -> Seq<RepositoryV> {
    s.map_values(|r: Repository| r@)
}

/// The SSH host of an `ssh://user@host/path` locator; `None` for local paths.
pub fn repo_host(path: &str) -> (r: Option<String>)
    ensures
        r is Some <==> ssh_repo(path@) is Some,
        r matches Some(h) ==> (ssh_repo(path@) matches Some((h2, _)) && h@ == h2),
{
    match parse_ssh_repo(path) {
        Some((h, _)) => Some(h),
        None => None,
    }
}

/// A contributor identity: the canonical name and the names or e-mail
/// addresses that stand for it.
#[derive(Clone, Debug, PartialEq, Eq)]
pub struct Member {
    pub canonical_name: String,
    pub aliases: Vec<String>,
    pub is_active: bool,
}

pub struct MemberV {
    pub canonical_name: Seq<char>,
    pub aliases: Seq<Seq<char>>,
    pub is_active: bool,
}

impl View for Member {
    type V = MemberV;

    open spec fn view(&self) -> MemberV {
        MemberV {
            canonical_name: self.canonical_name@,
            aliases: self.aliases@.map_values(|a: String| a@),
            is_active: self.is_active,
        }
    }
}

pub open spec fn members_view(s: Seq<Member>) -> Seq<MemberV> {
    s.map_values(|m: Member| m@)
}

/// One remembered base-to-target comparison.
#[derive(Clone, Debug, PartialEq, Eq)]
pub struct RecentCompare {
    pub repo_path: String,
    pub base: String,
    pub target: String,
}


// ---------------------------------------------------------------------------
// Cache files

/// The lower-case hexadecimal digit of a value below sixteen.
pub open spec fn hex_char(d: nat) -> char {
    if d < 10 {
        ('0' as nat + d) as char
    } else {
        ('a' as nat + (d - 10)) as char
    }
}

/// The last `n` hexadecimal digits of `h`, zero-padded, most significant first.
pub open spec fn hex_digits(h: nat, n: nat) -> Seq<char>
    decreases n,
{
    if n == 0 {
        Seq::empty()
    } else {
        hex_digits(h / 16, (n - 1) as nat).push(hex_char(h % 16))
    }
}

/// The name of the file that caches a repository's analysis, from the hash
/// of its path: `repo-`, the hash as sixteen hexadecimal digits, `.json`.
pub open spec fn cache_file_name(path_hash: u64) -> Seq<char> {
    "repo-"@ + hex_digits(path_hash as nat, 16) + ".json"@
}

fn hex_char_exec(d: u64) -> (c: char)
    requires
        d < 16,
    ensures
        c == hex_char(d as nat),
{
    if d < 10 {
        ((48 + d) as u8) as char
    } else {
        ((87 + d) as u8) as char
    }
}

fn hex_digits_exec(h: u64, n: usize) -> (r: Vec<char>)
    ensures
        r@ == hex_digits(h as nat, n as nat),
    decreases n,
{
    if n == 0 {
        Vec::new()
    } else {
        let mut r = hex_digits_exec(h / 16, n - 1);
        r.push(hex_char_exec(h % 16));
        r
    }
}

/// The cache file name of a repository whose path hashes to `path_hash`.
pub fn repo_cache_file_name(path_hash: u64) -> (r: String)
    ensures
        r@ == cache_file_name(path_hash),
{
    let mut v = crate::text::chars_of("repo-");
    let d = hex_digits_exec(path_hash, 16);
    let mut i: usize = 0;
    let ghost start = v@;
    while i < d.len()
        invariant
            i <= d@.len(),
            v@ == start + d@.take(i as int),
        decreases d.len() - i,
    {
        v.push(d[i]);
        i = i + 1;
        assert(v@ =~= start + d@.take(i as int));
    }
    let tail = crate::text::chars_of(".json");
    let all = crate::text::concat(&v, &tail);
    proof {
        assert(d@.take(d@.len() as int) =~= d@);
    }
    crate::text::string_of(&all)
}


/// The hash of a path string as `Path::hash` feeds it to a
/// `DefaultHasher::new()` (a hasher with fixed keys, not seeded per
/// process), so the same string hashes alike in every run of one build.
pub uninterp spec fn path_hash(p: Seq<char>) -> u64;

/// `Path::new(p).hash(&mut DefaultHasher::new())`, then `finish`. The
/// result is named `path_hash` of the string; the hashing itself is not
/// restated.
#[verifier::external_body]
fn hash_path(p: &str) -> (r: u64)
    ensures
        r == path_hash(p@),
{
    let mut h = std::collections::hash_map::DefaultHasher::new();
    std::hash::Hash::hash(std::path::Path::new(p), &mut h);
    std::hash::Hasher::finish(&h)
}

/// The cache file name of the repository at `repo_path`: `repo-`, the hash
/// of the path as sixteen hexadecimal digits, `.json`.
pub fn repo_cache_name(repo_path: &str) -> (r: String)
    ensures
        r@ == cache_file_name(path_hash(repo_path@)),
{
    repo_cache_file_name(hash_path(repo_path))
}


/// Whether a character is a lower-case hexadecimal digit.
pub open spec fn is_lower_hex(c: char) -> bool {
    ('0' <= c && c <= '9') || ('a' <= c && c <= 'f')
}

proof fn lemma_hex_digits(h: nat, n: nat)
    ensures
        hex_digits(h, n).len() == n,
        forall|i: int| 0 <= i < n ==> is_lower_hex(#[trigger] hex_digits(h, n)[i]),
    decreases n,
{
    if n > 0 {
        lemma_hex_digits(h / 16, (n - 1) as nat);
        let d = h % 16;
        assert(is_lower_hex(hex_char(d)));
        assert forall|i: int| 0 <= i < n implies is_lower_hex(#[trigger] hex_digits(h, n)[i]) by {
            if i < n - 1 {
                assert(hex_digits(h, n)[i] == hex_digits(h / 16, (n - 1) as nat)[i]);
            }
        }
    }
}

/// Every cache file name has the form `repo-`, sixteen lower-case
/// hexadecimal digits, `.json`: 26 characters.
pub proof fn lemma_cache_file_name_shape(path_hash: u64)
    ensures
        cache_file_name(path_hash).len() == 26,
        cache_file_name(path_hash).take(5) == "repo-"@,
        cache_file_name(path_hash).skip(21) == ".json"@,
        forall|i: int| 5 <= i < 21 ==> is_lower_hex(#[trigger] cache_file_name(path_hash)[i]),
{
    reveal_strlit("repo-");
    reveal_strlit(".json");
    lemma_hex_digits(path_hash as nat, 16);
    let n = cache_file_name(path_hash);
    let hx = hex_digits(path_hash as nat, 16);
    assert(n.take(5) =~= "repo-"@);
    assert(n.skip(21) =~= ".json"@);
    assert forall|i: int| 5 <= i < 21 implies is_lower_hex(#[trigger] n[i]) by {
        assert(n[i] == hx[i - 5]);
    }
}

} // verus!
