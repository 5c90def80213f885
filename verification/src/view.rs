//! Texts the dashboard shows: numbers with separators, sizes, shortened
//! strings, and the small classifications the views make.
use vstd::prelude::*;
use crate::config::Language;
use crate::git::{CommitSummary, CommitSummaryV, commits_view, lit};
use crate::i18n::{t, translate};
use crate::text::{chars_of, concat, decimal, decimal_chars, starts_with, starts_with_exec, str_eq, string_of};

verus! {

// ---------------------------------------------------------------------------
// Numbers

/// Decimal digits with a comma before every group of three counted from
/// the right.
pub open spec fn group_thousands(d: Seq<char>) -> Seq<char>
    decreases d.len(),
{
    if d.len() <= 3 {
        d
    } else {
        group_thousands(d.take(d.len() - 3)) + seq![','] + d.skip(d.len() - 3)
    }
}

/// `n` with thousands separators (12345 gives `12,345`).
pub fn format_thousands(n: usize) -> (r: String)
    ensures
        r@ == group_thousands(decimal(n as nat)),
{
    let d = decimal_chars(n as u64);
    let len = d.len();
    let first: usize = (len - 1) % 3 + 1;
    let mut out: Vec<char> = Vec::new();
    let mut i: usize = 0;
    proof {
        lemma_decimal_nonempty(n as nat);
    }
    while i < first
        invariant
            i <= first <= len,
            len == d@.len(),
            out@ == d@.take(i as int),
        decreases first - i,
    {
        out.push(d[i]);
        i = i + 1;
        assert(out@ =~= d@.take(i as int));
    }
    assert(group_thousands(d@.take(first as int)) == d@.take(first as int));
    let mut pos: usize = first;
    while pos < len
        invariant
            1 <= first <= pos <= len,
            (pos - first) % 3 == 0,
            (len - first) % 3 == 0,
            len == d@.len(),
            out@ == group_thousands(d@.take(pos as int)),
        decreases len - pos,
    {
        let ghost before = out@;
        assert((len - pos) % 3 == 0);
        assert(pos + 3 <= len);
        out.push(',');
        out.push(d[pos]);
        out.push(d[pos + 1]);
        out.push(d[pos + 2]);
        proof {
            let t = d@.take(pos + 3);
            assert(t.take(t.len() - 3) =~= d@.take(pos as int));
            assert(t.skip(t.len() - 3) =~= seq![d@[pos as int], d@[pos + 1], d@[pos + 2]]);
            assert(out@ =~= before + seq![','] + t.skip(t.len() - 3));
            assert(t.len() > 3);
            assert(group_thousands(t) == group_thousands(t.take(t.len() - 3)) + seq![','] + t.skip(t.len() - 3));
        }
        pos = pos + 3;
    }
    assert(d@.take(len as int) =~= d@);
    string_of(&out)
}

proof fn lemma_decimal_nonempty(n: nat)
    ensures
        decimal(n).len() >= 1,
        forall|i: int| 0 <= i < decimal(n).len() ==> #[trigger] decimal(n)[i] != ',',
    decreases n,
{
    if n >= 10 {
        lemma_decimal_nonempty(n / 10);
        let p = decimal(n / 10);
        assert forall|i: int| 0 <= i < decimal(n).len() implies #[trigger] decimal(n)[i] != ',' by {
            if i < p.len() {
                assert(decimal(n)[i] == p[i]);
            }
        }
    }
}

/// The characters of `s` other than commas.
pub open spec fn without_commas(s: Seq<char>) -> Seq<char>
    decreases s.len(),
{
    if s.len() == 0 {
        s
    } else if s.last() == ',' {
        without_commas(s.drop_last())
    } else {
        without_commas(s.drop_last()).push(s.last())
    }
}

proof fn lemma_without_commas_concat(a: Seq<char>, b: Seq<char>)
    ensures
        without_commas(a + b) == without_commas(a) + without_commas(b),
    decreases b.len(),
{
    if b.len() == 0 {
        assert(a + b =~= a);
        assert(without_commas(a) + without_commas(b) =~= without_commas(a));
    } else {
        lemma_without_commas_concat(a, b.drop_last());
        assert((a + b).drop_last() =~= a + b.drop_last());
        if b.last() != ',' {
            assert(without_commas(a) + without_commas(b.drop_last()).push(b.last())
                =~= (without_commas(a) + without_commas(b.drop_last())).push(b.last()));
        }
    }
}

proof fn lemma_without_commas_plain(s: Seq<char>)
    requires
        forall|i: int| 0 <= i < s.len() ==> #[trigger] s[i] != ',',
    ensures
        without_commas(s) == s,
    decreases s.len(),
{
    if s.len() > 0 {
        lemma_without_commas_plain(s.drop_last());
        assert(s.drop_last().push(s.last()) =~= s);
    }
}

proof fn lemma_group_thousands_digits(d: Seq<char>)
    requires
        forall|i: int| 0 <= i < d.len() ==> #[trigger] d[i] != ',',
    ensures
        without_commas(group_thousands(d)) == d,
    decreases d.len(),
{
    if d.len() <= 3 {
        lemma_without_commas_plain(d);
    } else {
        let a = d.take(d.len() - 3);
        let b = d.skip(d.len() - 3);
        lemma_group_thousands_digits(a);
        lemma_without_commas_concat(group_thousands(a) + seq![','], b);
        lemma_without_commas_concat(group_thousands(a), seq![',']);
        assert(without_commas(seq![',']) =~= Seq::<char>::empty()) by {
            assert(seq![','].drop_last() =~= Seq::<char>::empty());
            assert(seq![','].last() == ',');
            assert(without_commas(Seq::<char>::empty()) =~= Seq::<char>::empty());
        }
        lemma_without_commas_plain(b);
        assert(a + b =~= d);
    }
}

/// Taking the separators out of a formatted number gives back its digits.
pub proof fn lemma_format_thousands_digits(n: nat)
    ensures
        without_commas(group_thousands(decimal(n))) == decimal(n),
{
    lemma_decimal_nonempty(n);
    lemma_group_thousands_digits(decimal(n));
}


// ---------------------------------------------------------------------------
// Sizes

/// `num / den` rounded to the nearest integer, ties to the even one.
pub open spec fn round_half_even(num: int, den: int) -> int {
    let q = num / den;
    let r = num % den;
    if 2 * r > den || (2 * r == den && q % 2 == 1) {
        q + 1
    } else {
        q
    }
}

/// The distance between neighbouring `f64` values around `n` (for `n` below
/// 2^64): 1 up to 2^53, doubling with every further power of two.
pub open spec fn f64_spacing(n: nat) -> nat {
    if n < 0x20_0000_0000_0000 {
        1
    } else if n < 0x40_0000_0000_0000 {
        2
    } else if n < 0x80_0000_0000_0000 {
        4
    } else if n < 0x100_0000_0000_0000 {
        8
    } else if n < 0x200_0000_0000_0000 {
        16
    } else if n < 0x400_0000_0000_0000 {
        32
    } else if n < 0x800_0000_0000_0000 {
        64
    } else if n < 0x1000_0000_0000_0000 {
        128
    } else if n < 0x2000_0000_0000_0000 {
        256
    } else if n < 0x4000_0000_0000_0000 {
        512
    } else if n < 0x8000_0000_0000_0000 {
        1024
    } else {
        2048
    }
}

/// `n as f64`: the nearest `f64`, ties to even.
pub open spec fn nearest_f64(n: nat) -> nat {
    let u = f64_spacing(n);
    (round_half_even(n as int, u as int) * u) as nat
}

/// `q / 100` and `q % 100` written as `i.ff` (two places), or `q / 10` and
/// `q % 10` as `i.f` (one place).
pub open spec fn fixed_places(q: nat, places: nat) -> Seq<char> {
    if places == 2 {
        let f = q % 100;
        decimal(q / 100) + seq!['.'] + if f < 10 {
            seq!['0'] + decimal(f)
        } else {
            decimal(f)
        }
    } else {
        decimal(q / 10) + seq!['.'] + decimal(q % 10)
    }
}

/// `value / unit` printed with `places` decimals as `{:.N}` does: the exact
/// quotient rounded half to even.
pub open spec fn fixed_quotient(value: nat, unit: nat, places: nat) -> Seq<char> {
    let scale: nat = if places == 2 { 100 } else { 10 };
    fixed_places(round_half_even((value * scale) as int, unit as int) as nat, places)
}

/// A byte count in the largest of B, KB, MB, GB (units of 1024) it reaches:
/// two decimals for GB and MB, one for KB, none for bytes.
pub open spec fn size_text(bytes: nat) -> Seq<char> {
    if bytes >= 1073741824 {
        fixed_quotient(nearest_f64(bytes), 1073741824, 2) + " GB"@
    } else if bytes >= 1048576 {
        fixed_quotient(bytes, 1048576, 2) + " MB"@
    } else if bytes >= 1024 {
        fixed_quotient(bytes, 1024, 1) + " KB"@
    } else {
        decimal(bytes) + " B"@
    }
}

fn f64_spacing_exec(n: u64) -> (r: u128)
    ensures
        r == f64_spacing(n as nat),
{
    if n < 0x20_0000_0000_0000 {
        1
    } else if n < 0x40_0000_0000_0000 {
        2
    } else if n < 0x80_0000_0000_0000 {
        4
    } else if n < 0x100_0000_0000_0000 {
        8
    } else if n < 0x200_0000_0000_0000 {
        16
    } else if n < 0x400_0000_0000_0000 {
        32
    } else if n < 0x800_0000_0000_0000 {
        64
    } else if n < 0x1000_0000_0000_0000 {
        128
    } else if n < 0x2000_0000_0000_0000 {
        256
    } else if n < 0x4000_0000_0000_0000 {
        512
    } else if n < 0x8000_0000_0000_0000 {
        1024
    } else {
        2048
    }
}

fn round_half_even_exec(num: u128, den: u128) -> (r: u128)
    requires
        den > 0,
        num / den < u128::MAX,
    ensures
        r == round_half_even(num as int, den as int),
{
    let q = num / den;
    let r = num % den;
    if r > den - r || (r == den - r && q % 2 == 1) {
        q + 1
    } else {
        q
    }
}

fn fixed_places_exec(q: u128, places: u8) -> (r: Vec<char>)
    requires
        places == 1 || places == 2,
        q < 0x1_0000_0000_0000_0000,
    ensures
        r@ == fixed_places(q as nat, places as nat),
{
    if places == 2 {
        let ip = decimal_chars((q / 100) as u64);
        let f = (q % 100) as u64;
        let mut r = ip;
        r.push('.');
        if f < 10 {
            r.push('0');
        }
        let fd = decimal_chars(f);
        let r2 = concat(&r, &fd);
        proof {
            if f < 10 {
                assert(r2@ =~= decimal((q / 100) as nat) + seq!['.'] + (seq!['0'] + decimal(f as nat)));
            } else {
                assert(r2@ =~= decimal((q / 100) as nat) + seq!['.'] + decimal(f as nat));
            }
        }
        r2
    } else {
        let mut r = decimal_chars((q / 10) as u64);
        r.push('.');
        let fd = decimal_chars((q % 10) as u64);
        let r2 = concat(&r, &fd);
        assert(r2@ =~= decimal((q / 10) as nat) + seq!['.'] + decimal((q % 10) as nat));
        r2
    }
}

/// A byte count as text (see `size_text`): `1536` gives `1.5 KB`.
pub fn format_size(bytes: u64) -> (r: String)
    ensures
        r@ == size_text(bytes as nat),
{
    let b = bytes as u128;
    let out = if bytes >= 1073741824 {
        let u = f64_spacing_exec(bytes);
        let v = round_half_even_exec(b, u) * u;
        assert(v <= 0x1_0000_0000_0000_0000) by (nonlinear_arith)
            requires
                v == round_half_even(b as int, u as int) * u,
                b < 0x1_0000_0000_0000_0000,
                1 <= u <= 2048,
                u == f64_spacing(b as nat),
        {
        }
        let q = round_half_even_exec(v * 100, 1073741824);
        fixed_places_exec(q, 2)
    } else if bytes >= 1048576 {
        let q = round_half_even_exec(b * 100, 1048576);
        fixed_places_exec(q, 2)
    } else if bytes >= 1024 {
        let q = round_half_even_exec(b * 10, 1024);
        fixed_places_exec(q, 1)
    } else {
        decimal_chars(bytes)
    };
    let unit = if bytes >= 1073741824 {
        chars_of(" GB")
    } else if bytes >= 1048576 {
        chars_of(" MB")
    } else if bytes >= 1024 {
        chars_of(" KB")
    } else {
        chars_of(" B")
    };
    let all = concat(&out, &unit);
    string_of(&all)
}


// ---------------------------------------------------------------------------
// Shortened texts

/// The first `max` characters and an ellipsis when `s` is longer than
/// `max` characters; `s` itself otherwise.
pub open spec fn ellipsized(s: Seq<char>, max: nat) -> Seq<char> {
    if s.len() > max {
        s.take(max as int).push('…')
    } else {
        s
    }
}

fn ellipsized_exec(s: &str, max: usize) -> (r: String)
    ensures
        r@ == ellipsized(s@, max as nat),
{
    let v = chars_of(s);
    if v.len() > max {
        let mut t = crate::text::slice_of(&v, 0, max);
        t.push('…');
        assert(t@ =~= s@.take(max as int).push('…'));
        string_of(&t)
    } else {
        string_of(&v)
    }
}

/// `s` cut to `max` characters with an ellipsis (safe for any script).
pub fn short(s: &str, max: usize) -> (r: String)
    ensures
        r@ == ellipsized(s@, max as nat),
{
    ellipsized_exec(s, max)
}

/// `s` cut to `max_chars` characters with an ellipsis.
pub fn truncate(s: &str, max_chars: usize) -> (r: String)
    ensures
        r@ == ellipsized(s@, max_chars as nat),
{
    ellipsized_exec(s, max_chars)
}

/// `char::is_ascii_hexdigit`.
pub open spec fn is_hex_digit(c: char) -> bool {
    ('0' <= c && c <= '9') || ('a' <= c && c <= 'f') || ('A' <= c && c <= 'F')
}

/// Whether `s` looks like an abbreviated commit hash: 7 to 12 hexadecimal
/// digits (git's `%h` grows with the repository and `core.abbrev`).
pub open spec fn short_hash_like(s: Seq<char>) -> bool {
    7 <= s.len() <= 12 && forall|i: int| 0 <= i < s.len() ==> #[trigger] is_hex_digit(s[i])
}

pub fn looks_like_short_hash(s: &str) -> (r: bool)
    ensures
        r == short_hash_like(s@),
{
    let v = chars_of(s);
    if v.len() < 7 || v.len() > 12 {
        return false;
    }
    let mut i: usize = 0;
    while i < v.len()
        invariant
            i <= v@.len(),
            v@ == s@,
            forall|j: int| 0 <= j < i ==> #[trigger] is_hex_digit(v@[j]),
        decreases v.len() - i,
    {
        let c = v[i];
        if !(('0' <= c && c <= '9') || ('a' <= c && c <= 'f') || ('A' <= c && c <= 'F')) {
            assert(!is_hex_digit(v@[i as int]));
            return false;
        }
        i = i + 1;
    }
    true
}

/// The box-drawing character that stands for an ASCII commit-graph
/// character: `*` a dot, `|` a vertical bar, `/` and `\` diagonals, `_` a
/// horizontal bar; anything else unchanged.
pub open spec fn graph_char(c: char) -> char {
    if c == '*' {
        '●'
    } else if c == '|' {
        '│'
    } else if c == '/' {
        '╱'
    } else if c == '\\' {
        '╲'
    } else if c == '_' {
        '─'
    } else {
        c
    }
}

/// `git log --graph` output drawn with box-drawing characters.
pub fn replace_graph_chars(s: &str) -> (r: String)
    ensures
        r@ == s@.map_values(|c: char| graph_char(c)),
{
    let v = chars_of(s);
    let mut out: Vec<char> = Vec::new();
    let mut i: usize = 0;
    while i < v.len()
        invariant
            i <= v@.len(),
            v@ == s@,
            out@ == v@.take(i as int).map_values(|c: char| graph_char(c)),
        decreases v.len() - i,
    {
        let c = v[i];
        let g = if c == '*' {
            '●'
        } else if c == '|' {
            '│'
        } else if c == '/' {
            '╱'
        } else if c == '\\' {
            '╲'
        } else if c == '_' {
            '─'
        } else {
            c
        };
        out.push(g);
        i = i + 1;
        assert(out@ =~= v@.take(i as int).map_values(|c: char| graph_char(c)));
    }
    assert(v@.take(v@.len() as int) =~= v@);
    string_of(&out)
}

/// Display columns of a text: two for characters from U+1100 on (wide
/// scripts), one for the rest.
pub open spec fn columns(s: Seq<char>) -> nat
    decreases s.len(),
{
    if s.len() == 0 {
        0
    } else {
        columns(s.drop_last()) + if (s.last() as u32) >= 0x1100 { 2nat } else { 1nat }
    }
}

pub fn str_cols(s: &str) -> (r: usize)
    requires
        2 * s@.len() <= usize::MAX,
    ensures
        r == columns(s@),
{
    let v = chars_of(s);
    let mut n: usize = 0;
    let mut i: usize = 0;
    while i < v.len()
        invariant
            i <= v@.len(),
            v@ == s@,
            2 * v@.len() <= usize::MAX,
            n == columns(v@.take(i as int)),
            n <= 2 * i,
        decreases v.len() - i,
    {
        assert(v@.take(i + 1).drop_last() =~= v@.take(i as int));
        if (v[i] as u32) >= 0x1100 {
            n = n + 2;
        } else {
            n = n + 1;
        }
        i = i + 1;
    }
    assert(v@.take(v@.len() as int) =~= v@);
    n
}

/// The most characters of a README that are kept.
pub const README_MAX_CHARS: usize = 300000;

/// A README longer than `README_MAX_CHARS` characters cut there, with a
/// note that it was cut.
pub open spec fn capped_readme(s: Seq<char>) -> Seq<char> {
    if s.len() > README_MAX_CHARS {
        s.take(README_MAX_CHARS as int) + "\n\n... (truncated due to large file size)"@
    } else {
        s
    }
}

pub fn cap_readme(content: String) -> (r: String)
    ensures
        r@ == capped_readme(content@),
{
    let v = chars_of(content.as_str());
    if v.len() > README_MAX_CHARS {
        let head = crate::text::slice_of(&v, 0, README_MAX_CHARS);
        let note = chars_of("\n\n... (truncated due to large file size)");
        let all = concat(&head, &note);
        string_of(&all)
    } else {
        content
    }
}


// ---------------------------------------------------------------------------
// Describing refs

/// The number of bytes of a character in UTF-8.
pub open spec fn utf8_width(c: char) -> nat {
    let u = c as u32;
    if u < 0x80 {
        1
    } else if u < 0x800 {
        2
    } else if u < 0x10000 {
        3
    } else {
        4
    }
}

/// The number of bytes of `s` in UTF-8 (`str::len`).
pub open spec fn utf8_len(s: Seq<char>) -> nat
    decreases s.len(),
{
    if s.len() == 0 {
        0
    } else {
        utf8_len(s.drop_last()) + utf8_width(s.last())
    }
}

/// Scanning from character `k`, with `acc` bytes before it: the prefix of
/// `s` that is exactly `n` bytes long, if `n` falls between characters.
pub open spec fn byte_prefix_from(s: Seq<char>, n: nat, k: int, acc: nat) -> Option<Seq<char>>
    decreases s.len() - k,
{
    if acc == n {
        Some(s.take(k))
    } else if acc > n || k < 0 || k >= s.len() {
        None
    } else {
        byte_prefix_from(s, n, k + 1, acc + utf8_width(s[k]))
    }
}

/// `&s[..n]` for a byte offset `n`: none where `n` is not a character
/// boundary (where slicing panics).
pub open spec fn byte_prefix(s: Seq<char>, n: nat) -> Option<Seq<char>> {
    byte_prefix_from(s, n, 0, 0)
}

/// The date shown for a commit: its first ten bytes, or all of it when
/// shorter; none when the tenth byte is inside a character.
pub open spec fn date_part(d: Seq<char>) -> Option<Seq<char>> {
    if utf8_len(d) >= 10 {
        byte_prefix(d, 10)
    } else {
        Some(d)
    }
}

fn utf8_width_exec(c: char) -> (r: usize)
    ensures
        r == utf8_width(c),
        1 <= r <= 4,
{
    let u = c as u32;
    if u < 0x80 {
        1
    } else if u < 0x800 {
        2
    } else if u < 0x10000 {
        3
    } else {
        4
    }
}

proof fn lemma_utf8_len_take(s: Seq<char>, k: int)
    requires
        0 <= k < s.len(),
    ensures
        utf8_len(s.take(k + 1)) == utf8_len(s.take(k)) + utf8_width(s[k]),
{
    assert(s.take(k + 1).drop_last() =~= s.take(k));
}

fn date_part_exec(d: &Vec<char>) -> (r: Option<Vec<char>>)
    ensures
        r matches Some(v) ==> date_part(d@) == Some(v@),
        r is None ==> date_part(d@) is None,
{
    let mut acc: usize = 0;
    let mut k: usize = 0;
    while k < d.len() && acc < 10
        invariant
            k <= d@.len(),
            acc == utf8_len(d@.take(k as int)),
            acc < 14,
            byte_prefix(d@, 10) == byte_prefix_from(d@, 10, k as int, acc as nat),
        decreases d.len() - k,
    {
        proof {
            lemma_utf8_len_take(d@, k as int);
        }
        acc = acc + utf8_width_exec(d[k]);
        k = k + 1;
    }
    if acc < 10 {
        assert(d@.take(k as int) =~= d@);
        return Some(d.clone());
    }
    proof {
        lemma_utf8_len_prefix_le(d@, k as int);
    }
    if acc == 10 {
        Some(crate::text::slice_of(d, 0, k))
    } else {
        None
    }
}

proof fn lemma_utf8_len_prefix_le(s: Seq<char>, k: int)
    requires
        0 <= k <= s.len(),
    ensures
        utf8_len(s.take(k)) <= utf8_len(s),
    decreases s.len() - k,
{
    if k < s.len() {
        lemma_utf8_len_take(s, k);
        lemma_utf8_len_prefix_le(s, k + 1);
    } else {
        assert(s.take(k) =~= s);
    }
}


/// A commit answers to the ref `h` when either is a prefix of the other.
pub open spec fn hash_matches(hash: Seq<char>, h: Seq<char>) -> bool {
    starts_with(hash, h) || starts_with(h, hash)
}

/// The position of the first commit from `i` on that answers to `h`.
pub open spec fn find_commit_from(cs: Seq<CommitSummaryV>, h: Seq<char>, i: int) -> Option<int>
    decreases cs.len() - i,
{
    if i < 0 || i >= cs.len() {
        None
    } else if hash_matches(cs[i].hash, h) {
        Some(i)
    } else {
        find_commit_from(cs, h, i + 1)
    }
}

pub open spec fn find_commit(cs: Seq<CommitSummaryV>, h: Seq<char>) -> Option<int> {
    find_commit_from(cs, h, 0)
}

fn find_commit_exec(commits: &[CommitSummary], h: &Vec<char>) -> (r: Option<usize>)
    ensures
        r matches Some(k) ==> find_commit(commits_view(commits@), h@) == Some(k as int) && k < commits@.len(),
        r is None ==> find_commit(commits_view(commits@), h@) is None,
{
    let ghost cv = commits_view(commits@);
    let mut i: usize = 0;
    while i < commits.len()
        invariant
            i <= commits@.len(),
            cv == commits_view(commits@),
            cv.len() == commits@.len(),
            find_commit_from(cv, h@, 0) == find_commit_from(cv, h@, i as int),
        decreases commits.len() - i,
    {
        let hash = chars_of(commits[i].hash.as_str());
        assert(cv[i as int].hash == hash@);
        if starts_with_exec(&hash, h) || starts_with_exec(h, &hash) {
            return Some(i);
        }
        i = i + 1;
    }
    None
}

/// The ref `h` is the working tree.
pub open spec fn is_working_tree(h: Seq<char>) -> bool {
    h == "WORKING_TREE"@
}

/// Whether describing `h` slices a commit date inside a character (where
/// the slicing panics).
pub open spec fn describe_ref_ok(cs: Seq<CommitSummaryV>, h: Seq<char>) -> bool {
    is_working_tree(h) || match find_commit(cs, h) {
        Some(k) => date_part(cs[k].date) is Some,
        None => true,
    }
}

/// The one-line description of a known commit:
/// `[hash] date author  message` with the date cut to ten bytes and the
/// message to twenty characters.
pub open spec fn commit_line(c: CommitSummaryV) -> Seq<char> {
    "["@ + c.hash + "] "@ + date_part(c.date)->0 + " "@ + c.author + "  "@ + ellipsized(c.message, 20)
}

pub open spec fn ref_description(cs: Seq<CommitSummaryV>, h: Seq<char>, lang: Language) -> Seq<char> {
    if is_working_tree(h) {
        translate(lang, "uncommitted_changes_working"@)
    } else {
        match find_commit(cs, h) {
            Some(k) => commit_line(cs[k]),
            None => h,
        }
    }
}

/// Short description of a ref for the ref pickers: the working tree's
/// label, the line of a known commit, or the ref itself (tags, branches).
pub fn describe_ref(commits: &[CommitSummary], h: &str, lang: Language) -> (r: String)
    requires
        describe_ref_ok(commits_view(commits@), h@),
    ensures
        r@ == ref_description(commits_view(commits@), h@, lang),
{
    if str_eq(h, "WORKING_TREE") {
        return lit(t(lang, "uncommitted_changes_working"));
    }
    let hv = chars_of(h);
    match find_commit_exec(commits, &hv) {
        None => string_of(&hv),
        Some(k) => {
            let c = &commits[k];
            let ghost cv = commits_view(commits@);
            assert(cv[k as int] == c@);
            let date = chars_of(c.date.as_str());
            let dp = match date_part_exec(&date) {
                Some(v) => v,
                None => {
                    assert(false);
                    Vec::new()
                },
            };
            let msg = chars_of(ellipsized_exec(c.message.as_str(), 20).as_str());
            let mut out = chars_of("[");
            out = concat(&out, &chars_of(c.hash.as_str()));
            out = concat(&out, &chars_of("] "));
            out = concat(&out, &dp);
            out = concat(&out, &chars_of(" "));
            out = concat(&out, &chars_of(c.author.as_str()));
            out = concat(&out, &chars_of("  "));
            out = concat(&out, &msg);
            string_of(&out)
        },
    }
}

/// The hover text of a known commit, in the interface language.
pub open spec fn commit_details(c: CommitSummaryV, lang: Language) -> Seq<char> {
    match lang {
        Language::English => "Hash: "@ + c.hash + "\nDate: "@ + c.date + "\nAuthor: "@ + c.author + "\n\n"@
            + c.message,
        Language::Japanese => "ハッシュ: "@ + c.hash + "\n日時: "@ + c.date + "\n作者: "@ + c.author + "\n\n"@
            + c.message,
    }
}

/// Full details of the commit a ref names, when it is a known commit.
pub fn commit_hover(commits: &[CommitSummary], h: &str, lang: Language) -> (r: Option<String>)
    ensures
        r is Some <==> find_commit(commits_view(commits@), h@) is Some,
        r matches Some(s) ==> s@ == commit_details(
            commits_view(commits@)[find_commit(commits_view(commits@), h@)->0],
            lang,
        ),
{
    let hv = chars_of(h);
    match find_commit_exec(commits, &hv) {
        None => None,
        Some(k) => {
            let c = &commits[k];
            let ghost cv = commits_view(commits@);
            assert(cv[k as int] == c@);
            let (l1, l2, l3) = match lang {
                Language::English => (chars_of("Hash: "), chars_of("\nDate: "), chars_of("\nAuthor: ")),
                Language::Japanese => (chars_of("ハッシュ: "), chars_of("\n日時: "), chars_of("\n作者: ")),
            };
            let mut out = concat(&l1, &chars_of(c.hash.as_str()));
            out = concat(&out, &l2);
            out = concat(&out, &chars_of(c.date.as_str()));
            out = concat(&out, &l3);
            out = concat(&out, &chars_of(c.author.as_str()));
            out = concat(&out, &chars_of("\n\n"));
            out = concat(&out, &chars_of(c.message.as_str()));
            Some(string_of(&out))
        },
    }
}


/// The file names tried for a README, in order.
pub open spec fn readme_names() -> Seq<Seq<char>> {
    seq!["README.md"@, "README.txt"@, "README.rst"@, "readme.md"@, "Readme.md"@]
}

/// The file names tried for a README (see `readme_names`).
pub fn readme_candidates() -> (r: Vec<String>)
    ensures
        crate::git::strings_view(r@) == readme_names(),
{
    let mut r: Vec<String> = Vec::new();
    r.push(lit("README.md"));
    r.push(lit("README.txt"));
    r.push(lit("README.rst"));
    r.push(lit("readme.md"));
    r.push(lit("Readme.md"));
    assert(crate::git::strings_view(r@) =~= readme_names());
    r
}

/// The arguments that print a file of the checked-out commit (for a remote
/// repository, whose files cannot be read directly).
pub fn readme_show_args(name: &str) -> (r: Vec<String>)
    ensures
        crate::git::strings_view(r@) == seq!["show"@, "HEAD:"@ + name@],
{
    let mut r: Vec<String> = Vec::new();
    r.push(lit("show"));
    let a = concat(&chars_of("HEAD:"), &chars_of(name));
    r.push(string_of(&a));
    assert(crate::git::strings_view(r@) =~= seq!["show"@, "HEAD:"@ + name@]);
    r
}

/// The first README that could be read, from the results of reading the
/// candidates in order (`reads[i]` for `readme_names()[i]`; the reading may
/// stop after the first success): its name and its capped text.
pub open spec fn first_readme(reads: Seq<Result<Seq<char>, Seq<char>>>, i: int) -> Option<(Seq<char>, Seq<char>)>
    decreases readme_names().len() - i,
{
    if i < 0 || i >= readme_names().len() || i >= reads.len() {
        None
    } else if reads[i] is Ok {
        Some((readme_names()[i], capped_readme(reads[i]->Ok_0)))
    } else {
        first_readme(reads, i + 1)
    }
}

/// The README of a repository (see `first_readme`).
pub fn find_readme(reads: Vec<Result<String, String>>) -> (r: Option<(String, String)>)
    ensures
        match r {
            Some((n, t)) => first_readme(crate::git::results_view(reads@), 0) == Some((n@, t@)),
            None => first_readme(crate::git::results_view(reads@), 0) is None,
        },
{
    let names = readme_candidates();
    let ghost rv = crate::git::results_view(reads@);
    let mut rest = reads;
    let mut i: usize = 0;
    let ghost orig = rest@;
    assert(orig.skip(0) =~= orig);
    while i < names.len() && rest.len() > 0
        invariant
            i <= 5,
            names@.len() == 5,
            crate::git::strings_view(names@) == readme_names(),
            rv == crate::git::results_view(orig),
            orig == reads@,
            rest@ == orig.skip(i as int),
            i <= orig.len(),
            first_readme(rv, 0) == first_readme(rv, i as int),
        decreases rest@.len(),
    {
        let x = rest.remove(0);
        assert(x == orig[i as int]);
        assert(rest@ =~= orig.skip(i + 1));
        assert(rv[i as int] == crate::git::result_view(x));
        match x {
            Ok(content) => {
                assert(crate::git::strings_view(names@)[i as int] == names@[i as int]@);
                assert(readme_names().len() == 5);
                assert(i < orig.len());
                assert(rv[i as int] == Ok::<Seq<char>, Seq<char>>(content@));
                assert(first_readme(rv, i as int) == Some((readme_names()[i as int], capped_readme(content@))));
                return Some((names[i].clone(), cap_readme(content)));
            },
            Err(_) => {},
        }
        i = i + 1;
    }
    None
}


// ---------------------------------------------------------------------------
// Colours of branches and file statuses

/// The hash that picks a branch's colour: over the UTF-8 bytes of its name,
/// each step multiplies by 31 and adds the byte, modulo 2^32.
pub open spec fn name_hash(bytes: Seq<u8>) -> nat
    decreases bytes.len(),
{
    if bytes.len() == 0 {
        0
    } else {
        (31 * name_hash(bytes.drop_last()) + bytes.last() as nat) % 0x1_0000_0000
    }
}

proof fn lemma_name_hash_take(b: Seq<u8>, k: int)
    requires
        0 <= k < b.len(),
    ensures
        name_hash(b.take(k + 1)) == (31 * name_hash(b.take(k)) + b[k] as nat) % 0x1_0000_0000,
        name_hash(b.take(k)) < 0x1_0000_0000,
{
    assert(b.take(k + 1).drop_last() =~= b.take(k));
    if k > 0 {
        assert(b.take(k).drop_last() =~= b.take(k - 1));
    }
}

/// Which colour of a palette of `palette_len` a branch's marker gets: the
/// name's hash modulo the palette's length, the same for the same name.
pub fn branch_color_index(name: &str, palette_len: usize) -> (r: usize)
    requires
        palette_len > 0,
    ensures
        r == name_hash(vstd::utf8::encode_utf8(name@)) % (palette_len as nat),
{
    let bytes = name.as_bytes();
    let mut h: u64 = 0;
    let mut i: usize = 0;
    while i < bytes.len()
        invariant
            i <= bytes@.len(),
            bytes@ == vstd::utf8::encode_utf8(name@),
            h == name_hash(bytes@.take(i as int)),
            h < 0x1_0000_0000,
        decreases bytes.len() - i,
    {
        proof {
            lemma_name_hash_take(bytes@, i as int);
        }
        h = (h * 31 + bytes[i] as u64) % 0x1_0000_0000;
        i = i + 1;
    }
    assert(bytes@.take(bytes@.len() as int) =~= bytes@);
    (h as usize) % palette_len
}


/// `s` cut to `max - 3` characters and "..." when it is longer than `max`
/// characters; `s` itself otherwise.
pub open spec fn dotted(s: Seq<char>, max: nat) -> Seq<char> {
    if s.len() > max {
        s.take(max - 3) + "..."@
    } else {
        s
    }
}

/// `dotted` of a character sequence.
pub fn dotted_chars(s: &Vec<char>, max: usize) -> (r: String)
    requires
        max >= 3,
    ensures
        r@ == dotted(s@, max as nat),
{
    if s.len() > max {
        string_of(&concat(&crate::text::slice_of(s, 0, max - 3), &chars_of("...")))
    } else {
        string_of(s)
    }
}

/// A stash's message as the overview lists it: cut to 47 characters and
/// "..." when longer than 50.
pub fn stash_message_line(message: &str) -> (r: String)
    ensures
        r@ == dotted(message@, 50),
{
    dotted_chars(&chars_of(message), 50)
}


// ---------------------------------------------------------------------------
// Shares

/// A part's share of a whole, in percent, as an exact fraction
/// `(part * 100, whole)`; zero, as `(0, 1)`, when the whole is empty. The
/// share of a contributor's commits among all commits and of an
/// extension's files among all files are such shares.
pub open spec fn share_fraction(part: nat, whole: nat) -> (nat, nat) {
    if whole > 0 {
        (part * 100, whole)
    } else {
        (0, 1)
    }
}

/// `share_fraction` of `part` in `whole`.
pub fn share_percent(part: usize, whole: usize) -> (r: (u128, u128))
    ensures
        (r.0 as nat, r.1 as nat) == share_fraction(part as nat, whole as nat),
{
    if whole > 0 {
        assert(part * 100 <= u128::MAX) by (nonlinear_arith)
            requires
                part <= usize::MAX,
                usize::MAX <= u64::MAX,
        ;
        ((part as u128) * 100, whole as u128)
    } else {
        (0, 1)
    }
}

} // verus!
