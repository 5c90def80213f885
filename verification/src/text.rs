//! Character-sequence utilities: the string operations the parsers rely on,
//! each with a specification over `Seq<char>`.
use vstd::prelude::*;

verus! {

/// Appends one character to a string (`String::push`).
#[verifier::external_body]
pub(crate) fn push_char(s: &mut String, c: char)
    ensures
        final(s)@ == old(s)@.push(c),
{
    s.push(c);
}

/// The characters of a string slice, in order.
pub fn chars_of(s: &str) -> (v: Vec<char>)
    ensures
        v@ == s@,
{
    let mut v: Vec<char> = Vec::new();
    for c in it: s.chars()
        invariant
            v@ == it.seq().take(it.index() as int),
            it.seq() == s@,
    {
        v.push(c);
    }
    v
}

/// A string holding exactly the given characters.
pub fn string_of(v: &Vec<char>) -> (s: String)
    ensures
        s@ == v@,
{
    let mut s = String::new();
    let mut i: usize = 0;
    while i < v.len()
        invariant
            i <= v.len(),
            s@ == v@.take(i as int),
        decreases v.len() - i,
    {
        push_char(&mut s, v[i]);
        i = i + 1;
        assert(v@.take(i as int) == v@.take((i - 1) as int).push(v@[i - 1]));
    }
    assert(v@.take(v.len() as int) == v@);
    s
}

/// The characters `v[lo..hi]` as a new vector.
pub fn slice_of(v: &Vec<char>, lo: usize, hi: usize) -> (r: Vec<char>)
    requires
        lo <= hi <= v.len(),
    ensures
        r@ == v@.subrange(lo as int, hi as int),
{
    let mut r: Vec<char> = Vec::new();
    let mut i = lo;
    while i < hi
        invariant
            lo <= i <= hi <= v.len(),
            r@ == v@.subrange(lo as int, i as int),
        decreases hi - i,
    {
        r.push(v[i]);
        i = i + 1;
        assert(r@ == v@.subrange(lo as int, i as int));
    }
    r
}

/// `a + b` as a new vector.
pub fn concat(a: &Vec<char>, b: &Vec<char>) -> (r: Vec<char>)
    ensures
        r@ == a@ + b@,
{
    let mut r = a.clone();
    let mut i: usize = 0;
    while i < b.len()
        invariant
            i <= b.len(),
            r@ == a@ + b@.take(i as int),
        decreases b.len() - i,
    {
        r.push(b[i]);
        i = i + 1;
        assert(r@ == a@ + b@.take(i as int));
    }
    assert(b@.take(b.len() as int) == b@);
    r
}

/// Equality of two character sequences.
pub fn seq_eq(a: &Vec<char>, b: &Vec<char>) -> (r: bool)
    ensures
        r == (a@ == b@),
{
    if a.len() != b.len() {
        return false;
    }
    let mut i: usize = 0;
    while i < a.len()
        invariant
            a.len() == b.len(),
            i <= a.len(),
            forall|j: int| 0 <= j < i ==> a@[j] == b@[j],
        decreases a.len() - i,
    {
        if a[i] != b[i] {
            return false;
        }
        i = i + 1;
    }
    assert(a@ =~= b@);
    true
}

// ---------------------------------------------------------------------------
// Whitespace and trimming

/// Unicode `White_Space`, the set that `char::is_whitespace` accepts.
pub open spec fn is_ws(c: char) -> bool {
    let u = c as u32;
    ||| (0x09 <= u <= 0x0D)
    ||| u == 0x20
    ||| u == 0x85
    ||| u == 0xA0
    ||| u == 0x1680
    ||| (0x2000 <= u <= 0x200A)
    ||| u == 0x2028
    ||| u == 0x2029
    ||| u == 0x202F
    ||| u == 0x205F
    ||| u == 0x3000
}

pub fn is_whitespace(c: char) -> (r: bool)
    ensures
        r == is_ws(c),
{
    let u = c as u32;
    (0x09 <= u && u <= 0x0D) || u == 0x20 || u == 0x85 || u == 0xA0 || u == 0x1680 || (0x2000
        <= u && u <= 0x200A) || u == 0x2028 || u == 0x2029 || u == 0x202F || u == 0x205F || u
        == 0x3000
}

/// Leading whitespace removed.
pub open spec fn trim_start(s: Seq<char>) -> Seq<char>
    decreases s.len(),
{
    if s.len() > 0 && is_ws(s[0]) {
        trim_start(s.drop_first())
    } else {
        s
    }
}

/// Trailing whitespace removed.
pub open spec fn trim_end(s: Seq<char>) -> Seq<char>
    decreases s.len(),
{
    if s.len() > 0 && is_ws(s.last()) {
        trim_end(s.drop_last())
    } else {
        s
    }
}

/// Leading and trailing whitespace removed (`str::trim`).
pub open spec fn trim(s: Seq<char>) -> Seq<char> {
    trim_end(trim_start(s))
}

proof fn lemma_trim_start_skip(s: Seq<char>, k: int)
    requires
        0 <= k <= s.len(),
        forall|j: int| 0 <= j < k ==> is_ws(#[trigger] s[j]),
    ensures
        trim_start(s) == trim_start(s.skip(k)),
    decreases k,
{
    if k > 0 {
        assert(s.drop_first().skip(k - 1) =~= s.skip(k));
        lemma_trim_start_skip(s.drop_first(), k - 1);
    } else {
        assert(s.skip(0) =~= s);
    }
}

proof fn lemma_trim_end_take(s: Seq<char>, k: int)
    requires
        0 <= k <= s.len(),
        forall|j: int| k <= j < s.len() ==> is_ws(#[trigger] s[j]),
    ensures
        trim_end(s) == trim_end(s.take(k)),
    decreases s.len() - k,
{
    if k < s.len() {
        assert(s.drop_last().take(k) =~= s.take(k));
        lemma_trim_end_take(s.drop_last(), k);
    } else {
        assert(s.take(k) =~= s);
    }
}

/// `v` with leading and trailing whitespace removed.
pub fn trim_vec(v: &Vec<char>) -> (r: Vec<char>)
    ensures
        r@ == trim(v@),
{
    let mut lo: usize = 0;
    while lo < v.len() && is_whitespace(v[lo])
        invariant
            lo <= v.len(),
            forall|j: int| 0 <= j < lo ==> is_ws(#[trigger] v@[j]),
        decreases v.len() - lo,
    {
        lo = lo + 1;
    }
    let mut hi: usize = v.len();
    while hi > lo && is_whitespace(v[hi - 1])
        invariant
            lo <= hi <= v.len(),
            forall|j: int| hi <= j < v.len() ==> is_ws(#[trigger] v@[j]),
        decreases hi,
    {
        hi = hi - 1;
    }
    proof {
        lemma_trim_start_skip(v@, lo as int);
        let t = v@.skip(lo as int);
        assert(trim_start(t) == t);
        assert forall|j: int| hi - lo <= j < t.len() implies is_ws(#[trigger] t[j]) by {
            assert(t[j] == v@[j + lo]);
        }
        lemma_trim_end_take(t, hi - lo);
        let u = t.take(hi - lo);
        assert(u =~= v@.subrange(lo as int, hi as int));
        if u.len() > 0 {
            assert(u.last() == v@[hi - 1]);
        }
        assert(trim_end(u) == u);
    }
    slice_of(v, lo, hi)
}

/// `str::trim` on a string slice, as characters.
pub fn trim_str(s: &str) -> (r: Vec<char>)
    ensures
        r@ == trim(s@),
{
    let v = chars_of(s);
    trim_vec(&v)
}

// ---------------------------------------------------------------------------
// Prefixes, suffixes, searching

pub open spec fn starts_with(s: Seq<char>, p: Seq<char>) -> bool {
    p.len() <= s.len() && s.take(p.len() as int) == p
}

pub open spec fn ends_with(s: Seq<char>, p: Seq<char>) -> bool {
    p.len() <= s.len() && s.skip(s.len() - p.len()) == p
}

/// Whether `p` occurs in `s` starting at index `i`.
pub open spec fn matches_at(s: Seq<char>, p: Seq<char>, i: int) -> bool {
    0 <= i && i + p.len() <= s.len() && s.subrange(i, i + p.len()) == p
}

/// Whether `p` occurs anywhere in `s` (`str::contains`).
pub open spec fn contains_seq(s: Seq<char>, p: Seq<char>) -> bool {
    exists|i: int| matches_at(s, p, i)
}

/// Whether `p` occurs in `v` at index `i`.
pub fn matches_at_exec(v: &Vec<char>, p: &Vec<char>, i: usize) -> (r: bool)
    ensures
        r == matches_at(v@, p@, i as int),
{
    if i > v.len() || p.len() > v.len() - i {
        return false;
    }
    let mut k: usize = 0;
    while k < p.len()
        invariant
            i + p.len() <= v.len(),
            k <= p.len(),
            forall|j: int| 0 <= j < k ==> v@[i + j] == p@[j],
        decreases p.len() - k,
    {
        if v[i + k] != p[k] {
            assert(v@.subrange(i as int, i + p.len())[k as int] != p@[k as int]);
            return false;
        }
        k = k + 1;
    }
    assert(v@.subrange(i as int, i + p.len()) =~= p@);
    true
}

pub fn starts_with_exec(v: &Vec<char>, p: &Vec<char>) -> (r: bool)
    ensures
        r == starts_with(v@, p@),
{
    let r = matches_at_exec(v, p, 0);
    proof {
        if p@.len() <= v@.len() {
            assert(v@.subrange(0, p@.len() as int) =~= v@.take(p@.len() as int));
        }
    }
    r
}

pub fn ends_with_exec(v: &Vec<char>, p: &Vec<char>) -> (r: bool)
    ensures
        r == ends_with(v@, p@),
{
    if p.len() > v.len() {
        return false;
    }
    let r = matches_at_exec(v, p, v.len() - p.len());
    assert(v@.subrange(v.len() - p.len(), v.len() as int) =~= v@.skip(v.len() - p.len()));
    r
}

pub fn starts_with_char(v: &Vec<char>, c: char) -> (r: bool)
    ensures
        r == (v@.len() > 0 && v@[0] == c),
{
    v.len() > 0 && v[0] == c
}

/// Whether `p` occurs anywhere in `v`.
pub fn contains_exec(v: &Vec<char>, p: &Vec<char>) -> (r: bool)
    ensures
        r == contains_seq(v@, p@),
{
    if p.len() > v.len() {
        assert forall|i: int| !matches_at(v@, p@, i) by {}
        return false;
    }
    if p.len() == 0 {
        assert(v@.subrange(0, 0) =~= p@);
        assert(matches_at(v@, p@, 0));
        return true;
    }
    let mut i: usize = 0;
    while i <= v.len() - p.len()
        invariant
            1 <= p.len() <= v.len(),
            i <= v.len() - p.len() + 1,
            forall|j: int| 0 <= j < i ==> !matches_at(v@, p@, j),
        decreases v.len() - p.len() + 1 - i,
    {
        if matches_at_exec(v, p, i) {
            return true;
        }
        i = i + 1;
    }
    assert forall|j: int| !matches_at(v@, p@, j) by {
        if 0 <= j < i {
        }
    }
    false
}

/// Whether the character `c` occurs in `v`.
pub fn contains_char(v: &Vec<char>, c: char) -> (r: bool)
    ensures
        r == v@.contains(c),
{
    let mut i: usize = 0;
    while i < v.len()
        invariant
            i <= v.len(),
            forall|j: int| 0 <= j < i ==> v@[j] != c,
        decreases v.len() - i,
    {
        if v[i] == c {
            return true;
        }
        i = i + 1;
    }
    false
}

/// `str::strip_prefix`.
pub open spec fn strip_prefix(s: Seq<char>, p: Seq<char>) -> Option<Seq<char>> {
    if starts_with(s, p) {
        Some(s.skip(p.len() as int))
    } else {
        None
    }
}

/// `str::strip_suffix`.
pub open spec fn strip_suffix(s: Seq<char>, p: Seq<char>) -> Option<Seq<char>> {
    if ends_with(s, p) {
        Some(s.take(s.len() - p.len()))
    } else {
        None
    }
}

pub fn strip_prefix_exec(v: &Vec<char>, p: &Vec<char>) -> (r: Option<Vec<char>>)
    ensures
        r matches Some(x) ==> strip_prefix(v@, p@) == Some(x@),
        r is None ==> strip_prefix(v@, p@) is None,
{
    if starts_with_exec(v, p) {
        Some(slice_of(v, p.len(), v.len()))
    } else {
        None
    }
}

pub fn strip_suffix_exec(v: &Vec<char>, p: &Vec<char>) -> (r: Option<Vec<char>>)
    ensures
        r matches Some(x) ==> strip_suffix(v@, p@) == Some(x@),
        r is None ==> strip_suffix(v@, p@) is None,
{
    if ends_with_exec(v, p) {
        Some(slice_of(v, 0, v.len() - p.len()))
    } else {
        None
    }
}

/// Repeated removal of the character `c` at the start (`trim_start_matches(c)`).
pub open spec fn trim_start_char(s: Seq<char>, c: char) -> Seq<char>
    decreases s.len(),
{
    if s.len() > 0 && s[0] == c {
        trim_start_char(s.drop_first(), c)
    } else {
        s
    }
}

/// Repeated removal of the character `c` at the end (`trim_end_matches(c)`).
pub open spec fn trim_end_char(s: Seq<char>, c: char) -> Seq<char>
    decreases s.len(),
{
    if s.len() > 0 && s.last() == c {
        trim_end_char(s.drop_last(), c)
    } else {
        s
    }
}

proof fn lemma_trim_start_char_skip(s: Seq<char>, c: char, k: int)
    requires
        0 <= k <= s.len(),
        forall|j: int| 0 <= j < k ==> #[trigger] s[j] == c,
    ensures
        trim_start_char(s, c) == trim_start_char(s.skip(k), c),
    decreases k,
{
    if k > 0 {
        assert(s.drop_first().skip(k - 1) =~= s.skip(k));
        lemma_trim_start_char_skip(s.drop_first(), c, k - 1);
    } else {
        assert(s.skip(0) =~= s);
    }
}

proof fn lemma_trim_end_char_take(s: Seq<char>, c: char, k: int)
    requires
        0 <= k <= s.len(),
        forall|j: int| k <= j < s.len() ==> #[trigger] s[j] == c,
    ensures
        trim_end_char(s, c) == trim_end_char(s.take(k), c),
    decreases s.len() - k,
{
    if k < s.len() {
        assert(s.drop_last().take(k) =~= s.take(k));
        lemma_trim_end_char_take(s.drop_last(), c, k);
    } else {
        assert(s.take(k) =~= s);
    }
}

pub fn trim_start_char_exec(v: &Vec<char>, c: char) -> (r: Vec<char>)
    ensures
        r@ == trim_start_char(v@, c),
{
    let mut lo: usize = 0;
    while lo < v.len() && v[lo] == c
        invariant
            lo <= v.len(),
            forall|j: int| 0 <= j < lo ==> #[trigger] v@[j] == c,
        decreases v.len() - lo,
    {
        lo = lo + 1;
    }
    proof {
        lemma_trim_start_char_skip(v@, c, lo as int);
    }
    slice_of(v, lo, v.len())
}

pub fn trim_end_char_exec(v: &Vec<char>, c: char) -> (r: Vec<char>)
    ensures
        r@ == trim_end_char(v@, c),
{
    let mut hi: usize = v.len();
    while hi > 0 && v[hi - 1] == c
        invariant
            hi <= v.len(),
            forall|j: int| hi <= j < v.len() ==> #[trigger] v@[j] == c,
        decreases hi,
    {
        hi = hi - 1;
    }
    proof {
        lemma_trim_end_char_take(v@, c, hi as int);
        assert(v@.subrange(0, hi as int) =~= v@.take(hi as int));
    }
    slice_of(v, 0, hi)
}

/// Repeated removal of the suffix `p` (`trim_end_matches(p)` for a string pattern).
pub open spec fn trim_end_seq(s: Seq<char>, p: Seq<char>) -> Seq<char>
    decreases s.len(),
{
    if p.len() > 0 && ends_with(s, p) {
        trim_end_seq(s.take(s.len() - p.len()), p)
    } else {
        s
    }
}

/// Repeated removal of the prefix `p` (`trim_start_matches(p)` for a string pattern).
pub open spec fn trim_start_seq(s: Seq<char>, p: Seq<char>) -> Seq<char>
    decreases s.len(),
{
    if p.len() > 0 && starts_with(s, p) {
        trim_start_seq(s.skip(p.len() as int), p)
    } else {
        s
    }
}

pub fn trim_end_seq_exec(v: &Vec<char>, p: &Vec<char>) -> (r: Vec<char>)
    ensures
        r@ == trim_end_seq(v@, p@),
    decreases v.len(),
{
    if p.len() > 0 && ends_with_exec(v, p) {
        let shorter = slice_of(v, 0, v.len() - p.len());
        assert(shorter@ =~= v@.take(v@.len() - p@.len()));
        trim_end_seq_exec(&shorter, p)
    } else {
        v.clone()
    }
}

pub fn trim_start_seq_exec(v: &Vec<char>, p: &Vec<char>) -> (r: Vec<char>)
    ensures
        r@ == trim_start_seq(v@, p@),
    decreases v.len(),
{
    if p.len() > 0 && starts_with_exec(v, p) {
        let shorter = slice_of(v, p.len(), v.len());
        assert(shorter@ =~= v@.skip(p@.len() as int));
        trim_start_seq_exec(&shorter, p)
    } else {
        v.clone()
    }
}


// ---------------------------------------------------------------------------
// Splitting

/// The views of a vector of character vectors.
pub open spec fn vviews(r: Seq<Vec<char>>) -> Seq<Seq<char>> {
    r.map_values(|x: Vec<char>| x@)
}

/// `r` with `x` put in front of its first piece.
pub open spec fn prepend_first(x: Seq<char>, r: Seq<Seq<char>>) -> Seq<Seq<char>> {
    r.update(0, x + r[0])
}

/// The limit left after one cut.
pub open spec fn dec_limit(n: Option<nat>) -> Option<nat> {
    match n {
        Some(k) => Some((k - 1) as nat),
        None => None,
    }
}

/// `str::splitn(n, p)` (`Some(n)`, `n >= 1`) or `str::split(p)` (`None`) for a
/// nonempty pattern `p`: pieces cut at the leftmost non-overlapping occurrences
/// of `p`, at most `n` of them when limited.
pub open spec fn splitn_seq(s: Seq<char>, p: Seq<char>, n: Option<nat>) -> Seq<Seq<char>>
    decreases s.len(),
{
    if (n matches Some(k) && k <= 1) || p.len() == 0 || s.len() < p.len() {
        seq![s]
    } else if s.take(p.len() as int) == p {
        seq![Seq::<char>::empty()] + splitn_seq(s.skip(p.len() as int), p, dec_limit(n))
    } else {
        prepend_first(seq![s[0]], splitn_seq(s.drop_first(), p, n))
    }
}

/// `str::split(p)` for a nonempty pattern `p`.
pub open spec fn split_seq(s: Seq<char>, p: Seq<char>) -> Seq<Seq<char>> {
    splitn_seq(s, p, None)
}

pub proof fn lemma_splitn_nonempty(s: Seq<char>, p: Seq<char>, n: Option<nat>)
    ensures
        splitn_seq(s, p, n).len() >= 1,
    decreases s.len(),
{
    if (n matches Some(k) && k <= 1) || p.len() == 0 || s.len() < p.len() {
    } else if s.take(p.len() as int) == p {
        lemma_splitn_nonempty(s.skip(p.len() as int), p, dec_limit(n));
    } else {
        lemma_splitn_nonempty(s.drop_first(), p, n);
    }
}

proof fn lemma_prepend_twice(a: Seq<char>, b: Seq<char>, r: Seq<Seq<char>>)
    requires
        r.len() >= 1,
    ensures
        prepend_first(a, prepend_first(b, r)) == prepend_first(a + b, r),
{
    assert(a + (b + r[0]) =~= (a + b) + r[0]);
    assert(prepend_first(a, prepend_first(b, r)) =~= prepend_first(a + b, r));
}

/// The limit that remains after `used` pieces were cut.
pub open spec fn rem_limit(n: Option<usize>, used: nat) -> Option<nat> {
    match n {
        Some(k) => Some((k - used) as nat),
        None => None,
    }
}

pub open spec fn limit_of(n: Option<usize>) -> Option<nat> {
    match n {
        Some(k) => Some(k as nat),
        None => None,
    }
}

/// Whether one more cut is allowed after `used` pieces.
fn below_limit(n: Option<usize>, used: usize) -> (r: bool)
    ensures
        r == (match n {
            Some(k) => used + 1 < k,
            None => true,
        }),
{
    match n {
        Some(k) => used < k && k - used > 1,
        None => true,
    }
}

/// `v.splitn(n, p)` (or `v.split(p)` when `n` is `None`).
pub fn splitn_exec(v: &Vec<char>, p: &Vec<char>, n: Option<usize>) -> (r: Vec<Vec<char>>)
    requires
        p.len() > 0,
        n matches Some(k) ==> k >= 1,
    ensures
        vviews(r@) == splitn_seq(v@, p@, limit_of(n)),
{
    let mut pieces: Vec<Vec<char>> = Vec::new();
    let mut start: usize = 0;
    let mut i: usize = 0;
    proof {
        assert(v@.skip(0) =~= v@);
        lemma_splitn_nonempty(v@, p@, limit_of(n));
        assert(prepend_first(Seq::<char>::empty(), splitn_seq(v@, p@, limit_of(n))) =~= splitn_seq(
            v@,
            p@,
            limit_of(n),
        ));
        assert(vviews(pieces@) + splitn_seq(v@, p@, limit_of(n)) =~= splitn_seq(v@, p@, limit_of(n)));
        assert(rem_limit(n, 0) == limit_of(n));
    }
    while i < v.len() && p.len() <= v.len() - i && below_limit(n, pieces.len())
        invariant
            p.len() > 0,
            n matches Some(k) ==> pieces.len() < k,
            start <= i <= v.len(),
            splitn_seq(v@, p@, limit_of(n)) == vviews(pieces@) + prepend_first(
                v@.subrange(start as int, i as int),
                splitn_seq(v@.skip(i as int), p@, rem_limit(n, pieces.len() as nat)),
            ),
        decreases v.len() - i,
    {
        let ghost s = v@.skip(i as int);
        let ghost k = rem_limit(n, pieces.len() as nat);
        let ghost cur = v@.subrange(start as int, i as int);
        if matches_at_exec(v, p, i) {
            proof {
                assert(s.take(p.len() as int) =~= v@.subrange(i as int, i + p.len()));
                assert(s.skip(p.len() as int) =~= v@.skip(i + p.len()));
            }
            let piece = slice_of(v, start, i);
            let ghost prev = pieces@;
            pieces.push(piece);
            i = i + p.len();
            start = i;
            proof {
                assert(rem_limit(n, pieces.len() as nat) == dec_limit(k));
                let rest = splitn_seq(v@.skip(i as int), p@, dec_limit(k));
                assert(splitn_seq(s, p@, k) == seq![Seq::<char>::empty()] + rest);
                assert(prepend_first(cur, seq![Seq::<char>::empty()] + rest) =~= seq![cur] + rest);
                lemma_splitn_nonempty(v@.skip(i as int), p@, dec_limit(k));
                assert(prepend_first(Seq::<char>::empty(), rest) =~= rest);
                assert(vviews(pieces@) =~= vviews(prev).push(cur)) by {
                    assert(pieces@ == prev.push(piece));
                }
                assert(v@.subrange(start as int, i as int) =~= Seq::<char>::empty());
                assert(vviews(pieces@) + prepend_first(
                    v@.subrange(start as int, i as int),
                    splitn_seq(v@.skip(i as int), p@, rem_limit(n, pieces.len() as nat)),
                ) =~= vviews(prev) + (seq![cur] + rest));
            }
        } else {
            proof {
                assert(s.take(p.len() as int) != p@) by {
                    if s.take(p.len() as int) == p@ {
                        assert(v@.subrange(i as int, i + p.len()) =~= s.take(p.len() as int));
                    }
                }
                assert(s.drop_first() =~= v@.skip(i + 1));
                let rest = splitn_seq(v@.skip(i + 1), p@, k);
                lemma_splitn_nonempty(v@.skip(i + 1), p@, k);
                assert(splitn_seq(s, p@, k) == prepend_first(seq![s[0]], rest));
                lemma_prepend_twice(cur, seq![s[0]], rest);
                assert(cur + seq![s[0]] =~= v@.subrange(start as int, i + 1));
            }
            i = i + 1;
        }
    }
    proof {
        let s = v@.skip(i as int);
        let k = rem_limit(n, pieces.len() as nat);
        assert(splitn_seq(s, p@, k) == seq![s]);
        assert(v@.subrange(start as int, i as int) + s =~= v@.subrange(start as int, v.len() as int));
    }
    let last = slice_of(v, start, v.len());
    let ghost before = pieces@;
    pieces.push(last);
    proof {
        let s = v@.skip(i as int);
        let cur = v@.subrange(start as int, i as int);
        assert(prepend_first(cur, seq![s]) =~= seq![cur + s]);
        assert(vviews(pieces@) =~= vviews(before) + seq![last@]);
    }
    pieces
}

/// `v.split(p)`.
pub fn split_exec(v: &Vec<char>, p: &Vec<char>) -> (r: Vec<Vec<char>>)
    requires
        p.len() > 0,
    ensures
        vviews(r@) == split_seq(v@, p@),
{
    splitn_exec(v, p, None)
}

/// `v.split(c)` for a single character.
pub fn split_char(v: &Vec<char>, c: char) -> (r: Vec<Vec<char>>)
    ensures
        vviews(r@) == split_seq(v@, seq![c]),
{
    let mut p: Vec<char> = Vec::new();
    p.push(c);
    assert(p@ =~= seq![c]);
    split_exec(v, &p)
}

/// `v.splitn(n, c)` for a single character.
pub fn splitn_char(v: &Vec<char>, c: char, n: usize) -> (r: Vec<Vec<char>>)
    requires
        n >= 1,
    ensures
        vviews(r@) == splitn_seq(v@, seq![c], Some(n as nat)),
{
    let mut p: Vec<char> = Vec::new();
    p.push(c);
    assert(p@ =~= seq![c]);
    splitn_exec(v, &p, Some(n))
}

/// One line with its `\r` (before a `\n`) removed.
pub open spec fn strip_cr(l: Seq<char>) -> Seq<char> {
    if l.len() > 0 && l.last() == '\r' {
        l.drop_last()
    } else {
        l
    }
}

/// `str::lines`: pieces between `\n`, a `\r` before the `\n` dropped, and no
/// empty piece after a final `\n`.
pub open spec fn lines_seq(s: Seq<char>) -> Seq<Seq<char>> {
    let parts = split_seq(s, seq!['\n']);
    if s.len() == 0 {
        Seq::empty()
    } else if s.last() == '\n' {
        Seq::new((parts.len() - 1) as nat, |i: int| strip_cr(parts[i]))
    } else {
        Seq::new(parts.len(), |i: int| if i < parts.len() - 1 { strip_cr(parts[i]) } else { parts[i] })
    }
}

pub fn strip_cr_exec(l: Vec<char>) -> (r: Vec<char>)
    ensures
        r@ == strip_cr(l@),
{
    if l.len() > 0 && l[l.len() - 1] == '\r' {
        slice_of(&l, 0, l.len() - 1)
    } else {
        l
    }
}

/// `v.lines()`.
pub fn lines_exec(v: &Vec<char>) -> (r: Vec<Vec<char>>)
    ensures
        vviews(r@) == lines_seq(v@),
{
    let mut out: Vec<Vec<char>> = Vec::new();
    if v.len() == 0 {
        assert(vviews(out@) =~= lines_seq(v@));
        return out;
    }
    let parts = split_char(v, '\n');
    proof {
        lemma_splitn_nonempty(v@, seq!['\n'], None);
    }
    let ends_nl = v[v.len() - 1] == '\n';
    let n = parts.len();
    let count = if ends_nl { n - 1 } else { n };
    let mut i: usize = 0;
    while i < count
        invariant
            n == parts.len() >= 1,
            count == (if ends_nl { n - 1 } else { n as int }),
            i <= count,
            vviews(parts@) == split_seq(v@, seq!['\n']),
            ends_nl == (v@.last() == '\n'),
            v@.len() > 0,
            vviews(out@) == lines_seq(v@).take(i as int),
        decreases count - i,
    {
        let piece = parts[i].clone();
        let ghost before = out@;
        let ghost parts_v = split_seq(v@, seq!['\n']);
        assert(piece@ == parts_v[i as int]) by {
            assert(vviews(parts@)[i as int] == parts@[i as int]@);
        }
        if ends_nl || i + 1 < n {
            let l = strip_cr_exec(piece);
            out.push(l);
            proof {
                assert(lines_seq(v@)[i as int] == strip_cr(parts_v[i as int]));
            }
        } else {
            out.push(piece);
            proof {
                assert(lines_seq(v@)[i as int] == parts_v[i as int]);
            }
        }
        i = i + 1;
        proof {
            assert(vviews(out@) =~= vviews(before).push(out@[i - 1]@));
            assert(vviews(out@) =~= lines_seq(v@).take(i as int));
        }
    }
    assert(lines_seq(v@).take(count as int) =~= lines_seq(v@));
    out
}

/// `s.lines()` for a string slice.
pub fn lines_str(s: &str) -> (r: Vec<Vec<char>>)
    ensures
        vviews(r@) == lines_seq(s@),
{
    let v = chars_of(s);
    lines_exec(&v)
}


// ---------------------------------------------------------------------------
// Integers

pub open spec fn is_digit(c: char) -> bool {
    '0' <= c && c <= '9'
}

pub open spec fn digit_val(c: char) -> int {
    c as int - '0' as int
}

pub open spec fn all_digits(d: Seq<char>) -> bool {
    forall|i: int| 0 <= i < d.len() ==> is_digit(#[trigger] d[i])
}

/// The decimal value of a sequence of digits.
pub open spec fn digits_value(d: Seq<char>) -> int
    decreases d.len(),
{
    if d.len() == 0 {
        0
    } else {
        digits_value(d.drop_last()) * 10 + digit_val(d.last())
    }
}

/// The integer that `str::parse` reads for an integer type, before its range
/// is checked: an optional `+` (or `-` when `signed`), then one or more ASCII
/// digits, nothing else.
pub open spec fn parse_int(s: Seq<char>, signed: bool) -> Option<int> {
    if s.len() == 0 {
        None
    } else {
        let neg = signed && s[0] == '-';
        let d = if s[0] == '+' || neg {
            s.drop_first()
        } else {
            s
        };
        if d.len() == 0 || !all_digits(d) {
            None
        } else if neg {
            Some(-digits_value(d))
        } else {
            Some(digits_value(d))
        }
    }
}

/// `s.parse::<u64>()`.
pub open spec fn parse_u64(s: Seq<char>) -> Option<u64> {
    match parse_int(s, false) {
        Some(v) => if v <= u64::MAX {
            Some(v as u64)
        } else {
            None
        },
        None => None,
    }
}

/// `s.parse::<usize>()`.
pub open spec fn parse_usize(s: Seq<char>) -> Option<usize> {
    match parse_int(s, false) {
        Some(v) => if v <= usize::MAX {
            Some(v as usize)
        } else {
            None
        },
        None => None,
    }
}

/// `s.parse::<i64>()`.
pub open spec fn parse_i64(s: Seq<char>) -> Option<i64> {
    match parse_int(s, true) {
        Some(v) => if i64::MIN <= v <= i64::MAX {
            Some(v as i64)
        } else {
            None
        },
        None => None,
    }
}

/// `s.parse::<i32>()`.
pub open spec fn parse_i32(s: Seq<char>) -> Option<i32> {
    match parse_int(s, true) {
        Some(v) => if i32::MIN <= v <= i32::MAX {
            Some(v as i32)
        } else {
            None
        },
        None => None,
    }
}

/// `s.parse::<u8>()`.
pub open spec fn parse_u8(s: Seq<char>) -> Option<u8> {
    match parse_int(s, false) {
        Some(v) => if v <= u8::MAX {
            Some(v as u8)
        } else {
            None
        },
        None => None,
    }
}

pub proof fn lemma_digits_value_nonneg(d: Seq<char>)
    requires
        all_digits(d),
    ensures
        digits_value(d) >= 0,
    decreases d.len(),
{
    if d.len() > 0 {
        assert(is_digit(d[d.len() - 1]));
        lemma_digits_value_nonneg(d.drop_last());
    }
}

pub proof fn lemma_digits_value_prefix(d: Seq<char>, k: int)
    requires
        all_digits(d),
        0 <= k <= d.len(),
    ensures
        digits_value(d.take(k)) <= digits_value(d),
    decreases d.len() - k,
{
    if k < d.len() {
        assert(d.drop_last().take(k) =~= d.take(k));
        lemma_digits_value_prefix(d.drop_last(), k);
        lemma_digits_value_nonneg(d.drop_last());
        assert(is_digit(d[d.len() - 1]));
    } else {
        assert(d.take(k) =~= d);
    }
}

/// The value of the digits `v[lo..]`, or `None` when it exceeds `u64::MAX`.
fn digits_to_u64(v: &Vec<char>, lo: usize) -> (r: Option<u64>)
    requires
        lo <= v.len(),
        all_digits(v@.skip(lo as int)),
    ensures
        r matches Some(x) ==> x == digits_value(v@.skip(lo as int)),
        r is None ==> digits_value(v@.skip(lo as int)) > u64::MAX,
{
    let ghost d = v@.skip(lo as int);
    let mut val: u64 = 0;
    let mut i: usize = lo;
    assert(d.take(0) =~= Seq::<char>::empty());
    while i < v.len()
        invariant
            lo <= i <= v.len(),
            d == v@.skip(lo as int),
            all_digits(d),
            val == digits_value(d.take(i - lo)),
        decreases v.len() - i,
    {
        let c = v[i];
        assert(c == d[i - lo]);
        assert(is_digit(d[i - lo]));
        let dig: u64 = (c as u32 - '0' as u32) as u64;
        assert(d.take(i - lo + 1).drop_last() =~= d.take(i - lo));
        match val.checked_mul(10) {
            Some(m) => match m.checked_add(dig) {
                Some(nv) => {
                    val = nv;
                },
                None => {
                    proof {
                        lemma_digits_value_prefix(d, i - lo + 1);
                    }
                    return None;
                },
            },
            None => {
                proof {
                    lemma_digits_value_prefix(d, i - lo + 1);
                }
                return None;
            },
        }
        i = i + 1;
    }
    assert(d.take(i - lo) =~= d);
    Some(val)
}

proof fn lemma_all_digits_check(v: Seq<char>, lo: int)
    requires
        0 <= lo <= v.len(),
        forall|j: int| lo <= j < v.len() ==> is_digit(#[trigger] v[j]),
    ensures
        all_digits(v.skip(lo)),
{
    assert forall|i: int| 0 <= i < v.skip(lo).len() implies is_digit(#[trigger] v.skip(lo)[i]) by {
        assert(v.skip(lo)[i] == v[lo + i]);
    }
}

fn digits_from(v: &Vec<char>, lo: usize) -> (r: bool)
    requires
        lo <= v.len(),
    ensures
        r == all_digits(v@.skip(lo as int)),
{
    let mut i = lo;
    while i < v.len()
        invariant
            lo <= i <= v.len(),
            forall|j: int| lo <= j < i ==> is_digit(#[trigger] v@[j]),
        decreases v.len() - i,
    {
        if !(v[i] >= '0' && v[i] <= '9') {
            assert(v@.skip(lo as int)[i - lo] == v@[i as int]);
            return false;
        }
        i = i + 1;
    }
    proof {
        lemma_all_digits_check(v@, lo as int);
    }
    true
}

/// The sign and magnitude that `parse_int` reads, with the magnitude capped at
/// `u64::MAX` (`None` beyond it), or `Err` on a syntax error.
fn parse_magnitude(v: &Vec<char>, signed: bool) -> (r: Result<(bool, Option<u64>), ()>)
    ensures
        r is Err <==> parse_int(v@, signed) is None,
        r matches Ok((neg, Some(m))) ==> parse_int(v@, signed) == Some(
            if neg { -(m as int) } else { m as int },
        ),
        r matches Ok((neg, _)) ==> (neg ==> signed),
        r matches Ok((neg, None)) ==> (parse_int(v@, signed) matches Some(x) && (if neg { x < -(u64::MAX as int) } else { x > u64::MAX })),
{
    if v.len() == 0 {
        return Err(());
    }
    let neg = signed && v[0] == '-';
    let lo: usize = if v[0] == '+' || neg { 1 } else { 0 };
    proof {
        if lo == 1 {
            assert(v@.skip(1) =~= v@.drop_first());
        } else {
            assert(v@.skip(0) =~= v@);
        }
    }
    if lo == v.len() || !digits_from(v, lo) {
        return Err(());
    }
    let m = digits_to_u64(v, lo);
    Ok((neg, m))
}

/// `v.parse::<u64>()`.
pub fn parse_u64_exec(v: &Vec<char>) -> (r: Option<u64>)
    ensures
        r == parse_u64(v@),
{
    match parse_magnitude(v, false) {
        Ok((_, Some(m))) => Some(m),
        _ => None,
    }
}

/// `v.parse::<usize>()`.
pub fn parse_usize_exec(v: &Vec<char>) -> (r: Option<usize>)
    ensures
        r == parse_usize(v@),
{
    match parse_magnitude(v, false) {
        Ok((_, Some(m))) => if m <= usize::MAX as u64 {
            Some(m as usize)
        } else {
            None
        },
        _ => None,
    }
}

/// `v.parse::<u8>()`.
pub fn parse_u8_exec(v: &Vec<char>) -> (r: Option<u8>)
    ensures
        r == parse_u8(v@),
{
    match parse_magnitude(v, false) {
        Ok((_, Some(m))) => if m <= 255 {
            Some(m as u8)
        } else {
            None
        },
        _ => None,
    }
}

/// `v.parse::<i64>()`.
pub fn parse_i64_exec(v: &Vec<char>) -> (r: Option<i64>)
    ensures
        r == parse_i64(v@),
{
    match parse_magnitude(v, true) {
        Ok((neg, Some(m))) => {
            if neg {
                if m <= 0x8000_0000_0000_0000u64 {
                    if m == 0x8000_0000_0000_0000u64 {
                        Some(i64::MIN)
                    } else {
                        Some(-(m as i64))
                    }
                } else {
                    None
                }
            } else if m <= i64::MAX as u64 {
                Some(m as i64)
            } else {
                None
            }
        },
        _ => None,
    }
}

/// `v.parse::<i32>()`.
pub fn parse_i32_exec(v: &Vec<char>) -> (r: Option<i32>)
    ensures
        r == parse_i32(v@),
{
    match parse_magnitude(v, true) {
        Ok((neg, Some(m))) => {
            if neg {
                if m <= 0x8000_0000u64 {
                    Some((-(m as i64)) as i32)
                } else {
                    None
                }
            } else if m <= i32::MAX as u64 {
                Some(m as i32)
            } else {
                None
            }
        },
        _ => None,
    }
}


// ---------------------------------------------------------------------------
// Sequences of parsed items

/// The results of `f` on the elements of `s` that it accepts, in order.
pub open spec fn filter_map<A, B>(s: Seq<A>, f: spec_fn(A) -> Option<B>) -> Seq<B>
    decreases s.len(),
{
    if s.len() == 0 {
        Seq::empty()
    } else {
        let prev = filter_map(s.drop_last(), f);
        match f(s.last()) {
            Some(b) => prev.push(b),
            None => prev,
        }
    }
}

pub proof fn lemma_filter_map_take<A, B>(s: Seq<A>, f: spec_fn(A) -> Option<B>, i: int)
    requires
        0 <= i < s.len(),
    ensures
        filter_map(s.take(i + 1), f) == (match f(s[i]) {
            Some(b) => filter_map(s.take(i), f).push(b),
            None => filter_map(s.take(i), f),
        }),
{
    assert(s.take(i + 1).drop_last() =~= s.take(i));
    assert(s.take(i + 1).last() == s[i]);
}

pub proof fn lemma_filter_map_all<A, B>(s: Seq<A>, f: spec_fn(A) -> Option<B>)
    ensures
        filter_map(s.take(s.len() as int), f) == filter_map(s, f),
{
    assert(s.take(s.len() as int) =~= s);
}

/// `trim(v)` as a new string.
pub fn trimmed_string(v: &Vec<char>) -> (s: String)
    ensures
        s@ == trim(v@),
{
    let t = trim_vec(v);
    string_of(&t)
}

/// The characters of a string.
pub fn chars_of_string(s: &String) -> (v: Vec<char>)
    ensures
        v@ == s@,
{
    chars_of(s.as_str())
}


// ---------------------------------------------------------------------------
// Decimal rendering

pub open spec fn digit_char(d: nat) -> char {
    ((d + 48) as u32) as char
}

/// The decimal digits of `n`, most significant first, no leading zeros.
pub open spec fn decimal(n: nat) -> Seq<char>
    decreases n,
{
    if n < 10 {
        seq![digit_char(n)]
    } else {
        decimal(n / 10).push(digit_char(n % 10))
    }
}

/// The decimal digit of a value below ten.
pub fn digit_char_exec(d: u64) -> (c: char)
    requires
        d < 10,
    ensures
        c == digit_char(d as nat),
{
    let c = (d as u8 + 48u8) as char;
    assert(c == digit_char(d as nat)) by {
        assert(((d + 48) as u32) as char == c);
    }
    c
}

/// The decimal digits of `n`.
pub fn decimal_chars(n: u64) -> (r: Vec<char>)
    ensures
        r@ == decimal(n as nat),
    decreases n,
{
    if n < 10 {
        let mut r = Vec::new();
        r.push(digit_char_exec(n));
        assert(r@ =~= seq![digit_char(n as nat)]);
        r
    } else {
        let mut r = decimal_chars(n / 10);
        r.push(digit_char_exec(n % 10));
        r
    }
}

/// `n.to_string()`.
pub fn usize_to_string(n: usize) -> (s: String)
    ensures
        s@ == decimal(n as nat),
{
    let v = decimal_chars(n as u64);
    string_of(&v)
}

// ---------------------------------------------------------------------------
// Whitespace-separated tokens

/// Tokens seen so far and the token being read, scanning left to right.
pub open spec fn tok_fold(s: Seq<char>) -> (Seq<Seq<char>>, Seq<char>)
    decreases s.len(),
{
    if s.len() == 0 {
        (Seq::empty(), Seq::empty())
    } else {
        let (ts, cur) = tok_fold(s.drop_last());
        if is_ws(s.last()) {
            if cur.len() > 0 {
                (ts.push(cur), Seq::empty())
            } else {
                (ts, Seq::empty())
            }
        } else {
            (ts, cur.push(s.last()))
        }
    }
}

/// `str::split_whitespace`: the maximal runs of non-whitespace characters.
pub open spec fn ws_tokens(s: Seq<char>) -> Seq<Seq<char>> {
    let (ts, cur) = tok_fold(s);
    if cur.len() > 0 {
        ts.push(cur)
    } else {
        ts
    }
}

pub fn ws_tokens_exec(v: &Vec<char>) -> (r: Vec<Vec<char>>)
    ensures
        vviews(r@) == ws_tokens(v@),
{
    let mut ts: Vec<Vec<char>> = Vec::new();
    let mut cur: Vec<char> = Vec::new();
    let mut i: usize = 0;
    assert(v@.take(0) =~= Seq::<char>::empty());
    while i < v.len()
        invariant
            i <= v.len(),
            (vviews(ts@), cur@) == tok_fold(v@.take(i as int)),
        decreases v.len() - i,
    {
        proof {
            assert(v@.take(i + 1).drop_last() =~= v@.take(i as int));
            assert(v@.take(i + 1).last() == v@[i as int]);
        }
        let c = v[i];
        if is_whitespace(c) {
            if cur.len() > 0 {
                let ghost prev = ts@;
                ts.push(cur);
                assert(vviews(ts@) =~= vviews(prev).push(ts@[prev.len() as int]@));
            }
            cur = Vec::new();
            assert(cur@ =~= Seq::<char>::empty());
        } else {
            cur.push(c);
        }
        i = i + 1;
    }
    assert(v@.take(v.len() as int) =~= v@);
    if cur.len() > 0 {
        let ghost prev = ts@;
        ts.push(cur);
        assert(vviews(ts@) =~= vviews(prev).push(ts@[prev.len() as int]@));
    }
    ts
}


pub proof fn lemma_filter_map_concat<A, B>(a: Seq<A>, b: Seq<A>, f: spec_fn(A) -> Option<B>)
    ensures
        filter_map(a + b, f) == filter_map(a, f) + filter_map(b, f),
    decreases b.len(),
{
    if b.len() == 0 {
        assert(a + b =~= a);
        assert(filter_map(a, f) + filter_map(b, f) =~= filter_map(a, f));
    } else {
        assert((a + b).drop_last() =~= a + b.drop_last());
        assert((a + b).last() == b.last());
        lemma_filter_map_concat(a, b.drop_last(), f);
        match f(b.last()) {
            Some(x) => {
                assert(filter_map(a, f) + filter_map(b, f) =~= (filter_map(a, f) + filter_map(
                    b.drop_last(),
                    f,
                )).push(x));
            },
            None => {},
        }
    }
}


/// Equality of two string slices.
pub fn str_eq(a: &str, b: &str) -> (r: bool)
    ensures
        r == (a@ == b@),
{
    let x = a.as_bytes();
    let y = b.as_bytes();
    proof {
        vstd::utf8::encode_utf8_decode_utf8(a@);
        vstd::utf8::encode_utf8_decode_utf8(b@);
    }
    if x.len() != y.len() {
        return false;
    }
    let mut i: usize = 0;
    while i < x.len()
        invariant
            x@.len() == y@.len(),
            x@ == vstd::utf8::encode_utf8(a@),
            y@ == vstd::utf8::encode_utf8(b@),
            i <= x@.len(),
            forall|j: int| 0 <= j < i ==> x@[j] == y@[j],
        decreases x.len() - i,
    {
        if x[i] != y[i] {
            return false;
        }
        i = i + 1;
    }
    assert(x@ =~= y@);
    true
}


/// The elements of `s` that `f` keeps, themselves rather than their images.
pub open spec fn picked<A, B>(s: Seq<A>, f: spec_fn(A) -> Option<B>) -> Seq<A> {
    filter_map(s, |a: A| if f(a) is Some { Some(a) } else { None })
}

/// `filter_map` gives, in order, the image of each element that it keeps.
pub proof fn lemma_filter_map_picked<A, B>(s: Seq<A>, f: spec_fn(A) -> Option<B>)
    ensures
        filter_map(s, f).len() == picked(s, f).len(),
        forall|i: int| 0 <= i < filter_map(s, f).len() ==> f(#[trigger] picked(s, f)[i]) == Some(filter_map(s, f)[i]),
    decreases s.len(),
{
    if s.len() > 0 {
        let t = s.drop_last();
        lemma_filter_map_picked(t, f);
        let g = |a: A| if f(a) is Some { Some(a) } else { None };
        assert(picked(s, f) == filter_map(s, g));
        assert(picked(t, f) == filter_map(t, g));
        if f(s.last()) is Some {
            assert forall|i: int| 0 <= i < filter_map(s, f).len() implies f(#[trigger] picked(s, f)[i]) == Some(filter_map(s, f)[i]) by {
                if i < filter_map(t, f).len() {
                    assert(picked(s, f)[i] == picked(t, f)[i]);
                }
            }
        }
    }
}


/// Every element that `filter_map` gives is the image of some element.
pub proof fn lemma_filter_map_from<A, B>(s: Seq<A>, f: spec_fn(A) -> Option<B>)
    ensures
        forall|i: int| #![trigger filter_map(s, f)[i]] 0 <= i < filter_map(s, f).len() ==> exists|j: int| 0 <= j < s.len()
            && #[trigger] f(s[j]) == Some(filter_map(s, f)[i]),
    decreases s.len(),
{
    if s.len() > 0 {
        let t = s.drop_last();
        lemma_filter_map_from(t, f);
        assert forall|i: int| #![trigger filter_map(s, f)[i]] 0 <= i < filter_map(s, f).len() implies exists|j: int| 0 <= j < s.len()
            && #[trigger] f(s[j]) == Some(filter_map(s, f)[i]) by {
            if i < filter_map(t, f).len() {
                let j = choose|j: int| 0 <= j < t.len() && #[trigger] f(t[j]) == Some(filter_map(t, f)[i]);
                assert(t[j] == s[j]);
                assert(filter_map(s, f)[i] == filter_map(t, f)[i]);
            } else {
                assert(f(s[s.len() - 1]) == Some(filter_map(s, f)[i]));
            }
        }
    }
}


/// The decimal digits of `n` are one or more digits whose value is `n`.
pub proof fn lemma_decimal_value(n: nat)
    ensures
        decimal(n).len() >= 1,
        all_digits(decimal(n)),
        digits_value(decimal(n)) == n,
    decreases n,
{
    let d = digit_char(n % 10);
    assert(is_digit(d) && digit_val(d) == n % 10);
    if n >= 10 {
        lemma_decimal_value(n / 10);
        let s = decimal(n);
        assert(s.drop_last() =~= decimal(n / 10));
        assert(s.last() == d);
        assert forall|i: int| 0 <= i < s.len() implies is_digit(#[trigger] s[i]) by {
            if i < s.len() - 1 {
                assert(s[i] == decimal(n / 10)[i]);
            }
        }
        assert(digits_value(s) == digits_value(decimal(n / 10)) * 10 + digit_val(d));
        assert((n / 10) * 10 + n % 10 == n) by (nonlinear_arith);
    } else {
        assert(decimal(n).drop_last() =~= Seq::<char>::empty());
        assert(decimal(n).last() == d);
        assert(n % 10 == n);
        assert(digits_value(Seq::<char>::empty()) == 0);
        assert(digits_value(decimal(n)) == digits_value(decimal(n).drop_last()) * 10 + digit_val(decimal(n).last()));
    }
}

/// `str::parse::<usize>` reads back the decimal digits of a value in range.
pub proof fn lemma_parse_decimal(n: nat)
    requires
        n <= usize::MAX,
    ensures
        parse_usize(decimal(n)) == Some(n as usize),
{
    lemma_decimal_value(n);
    assert(is_digit(decimal(n)[0]));
}

/// Characters that are not whitespace, appended, extend the token being
/// read.
pub proof fn lemma_tok_fold_word(s: Seq<char>, w: Seq<char>)
    requires
        forall|i: int| 0 <= i < w.len() ==> !is_ws(#[trigger] w[i]),
    ensures
        tok_fold(s + w) == (tok_fold(s).0, tok_fold(s).1 + w),
    decreases w.len(),
{
    if w.len() == 0 {
        assert(s + w =~= s);
        assert(tok_fold(s).1 + w =~= tok_fold(s).1);
    } else {
        let u = w.drop_last();
        assert forall|i: int| 0 <= i < u.len() implies !is_ws(#[trigger] u[i]) by {
            assert(u[i] == w[i]);
        }
        lemma_tok_fold_word(s, u);
        assert((s + w).drop_last() =~= s + u);
        assert((s + w).last() == w[w.len() - 1]);
        assert(tok_fold(s).1 + u.push(w.last()) =~= tok_fold(s).1 + w);
        assert(u.push(w.last()) =~= w);
    }
}

/// A space closes the token being read.
pub proof fn lemma_tok_fold_space(s: Seq<char>)
    ensures
        tok_fold(s.push(' ')) == (if tok_fold(s).1.len() > 0 {
            tok_fold(s).0.push(tok_fold(s).1)
        } else {
            tok_fold(s).0
        }, Seq::<char>::empty()),
{
    assert(s.push(' ').drop_last() =~= s);
    assert(is_ws(' '));
}

/// Tokens already closed stay, whatever follows.
pub proof fn lemma_tok_fold_prefix(s: Seq<char>, q: Seq<char>)
    ensures
        tok_fold(s + q).0.len() >= tok_fold(s).0.len(),
        forall|i: int| 0 <= i < tok_fold(s).0.len() ==> #[trigger] tok_fold(s + q).0[i] == tok_fold(s).0[i],
    decreases q.len(),
{
    if q.len() == 0 {
        assert(s + q =~= s);
    } else {
        let u = q.drop_last();
        lemma_tok_fold_prefix(s, u);
        assert((s + q).drop_last() =~= s + u);
    }
}

/// The first piece of `d + t` split at commas is `d`, when `d` has no comma
/// and `t` is empty or starts with one.
pub proof fn lemma_split_first_piece(d: Seq<char>, t: Seq<char>)
    requires
        forall|i: int| 0 <= i < d.len() ==> #[trigger] d[i] != ',',
        t.len() == 0 || t[0] == ',',
    ensures
        split_seq(d + t, seq![',']).len() >= 1,
        split_seq(d + t, seq![','])[0] == d,
    decreases d.len(),
{
    lemma_splitn_nonempty(d + t, seq![','], None);
    if d.len() == 0 {
        assert(d + t =~= t);
        if t.len() > 0 {
            assert(t.take(1) =~= seq![',']);
        }
    } else {
        let s = d + t;
        let rest = d.drop_first();
        assert forall|i: int| 0 <= i < rest.len() implies #[trigger] rest[i] != ',' by {
            assert(rest[i] == d[i + 1]);
        }
        lemma_split_first_piece(rest, t);
        assert(s.drop_first() =~= rest + t);
        assert(s.take(1) != seq![',']) by {
            assert(s.take(1)[0] == d[0]);
        }
        assert(seq![s[0]] + rest =~= d);
    }
}

} // verus!
