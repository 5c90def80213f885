//! Terminal colour codes in git's coloured output: a line split into
//! stretches of text, each with the colour and weight in force there.
use vstd::prelude::*;
use crate::text::{chars_of, filter_map, parse_u8, parse_u8_exec, seq_eq, slice_of, split_char, split_seq, string_of, trim, trim_vec, vviews, ws_tokens, ws_tokens_exec};
use crate::view::{looks_like_short_hash, short_hash_like};

verus! {

/// A colour of coloured output: one of the interface theme's colours, which
/// the interface resolves, or a fixed RGB colour.
#[derive(Clone, Copy, Debug, PartialEq, Eq, Structural)]
pub enum AnsiColor {
    Rgb(u8, u8, u8),
    Error,
    Success,
    Warning,
    Accent,
    Info,
    Text,
    TextDim,
}

/// The RGB value of an entry of the 256-colour palette: the sixteen
/// standard colours, the 6x6x6 cube (steps of 51) and the grey ramp.
pub open spec fn palette_256(idx: u8) -> (u8, u8, u8) {
    if idx == 0 {
        (0, 0, 0)
    } else if idx == 1 {
        (128, 0, 0)
    } else if idx == 2 {
        (0, 128, 0)
    } else if idx == 3 {
        (128, 128, 0)
    } else if idx == 4 {
        (0, 0, 128)
    } else if idx == 5 {
        (128, 0, 128)
    } else if idx == 6 {
        (0, 128, 128)
    } else if idx == 7 {
        (192, 192, 192)
    } else if idx == 8 {
        (128, 128, 128)
    } else if idx == 9 {
        (255, 0, 0)
    } else if idx == 10 {
        (0, 255, 0)
    } else if idx == 11 {
        (255, 255, 0)
    } else if idx == 12 {
        (0, 0, 255)
    } else if idx == 13 {
        (255, 0, 255)
    } else if idx == 14 {
        (0, 255, 255)
    } else if idx == 15 {
        (255, 255, 255)
    } else if idx <= 231 {
        let v = idx - 16;
        ((v / 36 * 51) as u8, ((v % 36) / 6 * 51) as u8, (v % 6 * 51) as u8)
    } else {
        let g = (8 + (idx - 232) * 10) as u8;
        (g, g, g)
    }
}

/// The colour of entry `idx` of the 256-colour palette.
pub fn ansi_256_color(idx: u8) -> (r: (u8, u8, u8))
    ensures
        r == palette_256(idx),
{
    match idx {
        0 => (0, 0, 0),
        1 => (128, 0, 0),
        2 => (0, 128, 0),
        3 => (128, 128, 0),
        4 => (0, 0, 128),
        5 => (128, 0, 128),
        6 => (0, 128, 128),
        7 => (192, 192, 192),
        8 => (128, 128, 128),
        9 => (255, 0, 0),
        10 => (0, 255, 0),
        11 => (255, 255, 0),
        12 => (0, 0, 255),
        13 => (255, 0, 255),
        14 => (0, 255, 255),
        15 => (255, 255, 255),
        16..=231 => {
            let v = idx - 16;
            (v / 36 * 51, (v % 36) / 6 * 51, v % 6 * 51)
        },
        _ => {
            let g = 8 + (idx - 232) * 10;
            (g, g, g)
        },
    }
}

/// The foreground colour that a one-number code selects.
pub open spec fn fg_color(p: Seq<char>) -> Option<AnsiColor> {
    if p == "30"@ {
        Some(AnsiColor::Rgb(40, 44, 52))
    } else if p == "31"@ {
        Some(AnsiColor::Error)
    } else if p == "32"@ {
        Some(AnsiColor::Success)
    } else if p == "33"@ {
        Some(AnsiColor::Warning)
    } else if p == "34"@ {
        Some(AnsiColor::Accent)
    } else if p == "35"@ {
        Some(AnsiColor::Rgb(198, 120, 221))
    } else if p == "36"@ {
        Some(AnsiColor::Info)
    } else if p == "37"@ {
        Some(AnsiColor::Text)
    } else if p == "90"@ {
        Some(AnsiColor::TextDim)
    } else if p == "91"@ {
        Some(AnsiColor::Error)
    } else if p == "92"@ {
        Some(AnsiColor::Success)
    } else if p == "93"@ {
        Some(AnsiColor::Warning)
    } else if p == "94"@ {
        Some(AnsiColor::Accent)
    } else if p == "95"@ {
        Some(AnsiColor::Rgb(224, 108, 117))
    } else if p == "96"@ {
        Some(AnsiColor::Info)
    } else if p == "97"@ {
        Some(AnsiColor::Text)
    } else {
        None
    }
}

fn is_lit(p: &Vec<char>, s: &str) -> (r: bool)
    ensures
        r == (p@ == s@),
{
    let v = chars_of(s);
    seq_eq(p, &v)
}

fn fg_color_exec(p: &Vec<char>) -> (r: Option<AnsiColor>)
    ensures
        r == fg_color(p@),
{
    if is_lit(p, "30") {
        Some(AnsiColor::Rgb(40, 44, 52))
    } else if is_lit(p, "31") {
        Some(AnsiColor::Error)
    } else if is_lit(p, "32") {
        Some(AnsiColor::Success)
    } else if is_lit(p, "33") {
        Some(AnsiColor::Warning)
    } else if is_lit(p, "34") {
        Some(AnsiColor::Accent)
    } else if is_lit(p, "35") {
        Some(AnsiColor::Rgb(198, 120, 221))
    } else if is_lit(p, "36") {
        Some(AnsiColor::Info)
    } else if is_lit(p, "37") {
        Some(AnsiColor::Text)
    } else if is_lit(p, "90") {
        Some(AnsiColor::TextDim)
    } else if is_lit(p, "91") {
        Some(AnsiColor::Error)
    } else if is_lit(p, "92") {
        Some(AnsiColor::Success)
    } else if is_lit(p, "93") {
        Some(AnsiColor::Warning)
    } else if is_lit(p, "94") {
        Some(AnsiColor::Accent)
    } else if is_lit(p, "95") {
        Some(AnsiColor::Rgb(224, 108, 117))
    } else if is_lit(p, "96") {
        Some(AnsiColor::Info)
    } else if is_lit(p, "97") {
        Some(AnsiColor::Text)
    } else {
        None
    }
}

/// The colour and weight after the `;`-separated numbers of one escape
/// sequence, read from number `i` on: `0` resets, `1` is bold, the colour
/// numbers select a colour, `38;5;n` a palette entry and `38;2;r;g;b` an
/// RGB value (numbers that do not fit a byte leave the colour as it was).
pub open spec fn apply_codes(parts: Seq<Seq<char>>, i: int, color: Option<AnsiColor>, bold: bool) -> (Option<AnsiColor>, bool)
    decreases parts.len() - i,
{
    if i < 0 || i >= parts.len() {
        (color, bold)
    } else {
        let p = parts[i];
        if p == "0"@ {
            apply_codes(parts, i + 1, None, false)
        } else if p == "1"@ {
            apply_codes(parts, i + 1, color, true)
        } else if fg_color(p) is Some {
            apply_codes(parts, i + 1, fg_color(p), bold)
        } else if p == "38"@ && i + 2 < parts.len() && parts[i + 1] == "5"@ {
            let c = match parse_u8(parts[i + 2]) {
                Some(k) => Some(
                    AnsiColor::Rgb(palette_256(k).0, palette_256(k).1, palette_256(k).2),
                ),
                None => color,
            };
            apply_codes(parts, i + 3, c, bold)
        } else if p == "38"@ && i + 4 < parts.len() && parts[i + 1] == "2"@ {
            let c = match (parse_u8(parts[i + 2]), parse_u8(parts[i + 3]), parse_u8(parts[i + 4])) {
                (Some(r), Some(g), Some(b)) => Some(AnsiColor::Rgb(r, g, b)),
                _ => color,
            };
            apply_codes(parts, i + 5, c, bold)
        } else {
            apply_codes(parts, i + 1, color, bold)
        }
    }
}

fn apply_codes_exec(parts: &Vec<Vec<char>>, color: Option<AnsiColor>, bold: bool) -> (r: (Option<AnsiColor>, bool))
    ensures
        r == apply_codes(vviews(parts@), 0, color, bold),
{
    let ghost pv = vviews(parts@);
    let mut c = color;
    let mut b = bold;
    let mut i: usize = 0;
    while i < parts.len()
        invariant
            pv == vviews(parts@),
            pv.len() == parts@.len(),
            i <= parts@.len(),
            apply_codes(pv, 0, color, bold) == apply_codes(pv, i as int, c, b),
        decreases parts.len() - i,
    {
        let p = &parts[i];
        assert(pv[i as int] == p@);
        let fg = fg_color_exec(p);
        if is_lit(p, "0") {
            c = None;
            b = false;
            i = i + 1;
        } else if is_lit(p, "1") {
            b = true;
            i = i + 1;
        } else if fg.is_some() {
            c = fg;
            i = i + 1;
        } else if is_lit(p, "38") && parts.len() - i > 2 && is_lit(&parts[i + 1], "5") {
            assert(pv[i + 1] == parts@[i + 1]@);
            assert(pv[i + 2] == parts@[i + 2]@);
            match parse_u8_exec(&parts[i + 2]) {
                Some(k) => {
                    let (r, g, bl) = ansi_256_color(k);
                    c = Some(AnsiColor::Rgb(r, g, bl));
                },
                None => {},
            }
            i = i + 3;
        } else if is_lit(p, "38") && parts.len() - i > 4 && is_lit(&parts[i + 1], "2") {
            assert(pv[i + 1] == parts@[i + 1]@);
            assert(pv[i + 2] == parts@[i + 2]@);
            assert(pv[i + 3] == parts@[i + 3]@);
            assert(pv[i + 4] == parts@[i + 4]@);
            match (parse_u8_exec(&parts[i + 2]), parse_u8_exec(&parts[i + 3]), parse_u8_exec(&parts[i + 4])) {
                (Some(r), Some(g), Some(bl)) => {
                    c = Some(AnsiColor::Rgb(r, g, bl));
                },
                _ => {},
            }
            i = i + 5;
        } else {
            i = i + 1;
        }
    }
    (c, b)
}


/// A stretch of a line drawn in one colour and weight.
#[derive(Clone, Debug, PartialEq, Eq)]
pub struct TextSegment {
    pub text: String,
    pub color: Option<AnsiColor>,
    pub bold: bool,
}

pub struct TextSegmentV {
    pub text: Seq<char>,
    pub color: Option<AnsiColor>,
    pub bold: bool,
}

impl View for TextSegment {
    type V = TextSegmentV;

    open spec fn view(&self) -> TextSegmentV {
        TextSegmentV { text: self.text@, color: self.color, bold: self.bold }
    }
}

pub open spec fn segments_view(s: Seq<TextSegment>) -> Seq<TextSegmentV> {
    s.map_values(|t: TextSegment| t@)
}

/// The characters an escape sequence's numbers are made of.
pub open spec fn is_code_char(c: char) -> bool {
    ('0' <= c && c <= '9') || c == ';'
}

pub open spec fn keep_code_char() -> spec_fn(char) -> Option<char> {
    |c: char| if is_code_char(c) { Some(c) } else { None }
}

/// Where the escape sequence whose numbers start at `k` ends: the first `m`
/// from `k` on, or the end of the line.
pub open spec fn code_end(s: Seq<char>, k: int) -> int
    decreases s.len() - k,
{
    if k < 0 || k >= s.len() {
        s.len() as int
    } else if s[k] == 'm' {
        k
    } else {
        code_end(s, k + 1)
    }
}

/// The segments with the pending text added, when there is any.
pub open spec fn flushed(segs: Seq<TextSegmentV>, text: Seq<char>, color: Option<AnsiColor>, bold: bool) -> Seq<TextSegmentV> {
    if text.len() > 0 {
        segs.push(TextSegmentV { text, color, bold })
    } else {
        segs
    }
}

/// The colour and weight after an escape sequence with the numbers `code`:
/// an empty sequence or a lone `0` resets both.
pub open spec fn after_codes(code: Seq<char>, color: Option<AnsiColor>, bold: bool) -> (Option<AnsiColor>, bool) {
    if code.len() == 0 || code == "0"@ {
        (None, false)
    } else {
        apply_codes(split_seq(code, seq![';']), 0, color, bold)
    }
}

/// The segments of `s` read from character `k` on, with `segs` already
/// finished, `text` pending, and the colour and weight in force. An escape
/// (`ESC [`) ends the pending text; the digits and semicolons up to the
/// next `m` (other characters there are skipped) change the colour and
/// weight.
pub open spec fn segments_from(
    s: Seq<char>,
    k: int,
    segs: Seq<TextSegmentV>,
    text: Seq<char>,
    color: Option<AnsiColor>,
    bold: bool,
) -> Seq<TextSegmentV>
    decreases s.len() - k,
{
    if k < 0 || k >= s.len() {
        flushed(segs, text, color, bold)
    } else if s[k] == '\x1b' && k + 1 < s.len() && s[k + 1] == '[' {
        let e = code_end(s, k + 2);
        let code = filter_map(s.subrange(k + 2, e), keep_code_char());
        let next = if e < s.len() { e + 1 } else { e };
        let cb = after_codes(code, color, bold);
        proof {
            lemma_code_end_bound(s, k + 2);
        }
        segments_from(s, next, flushed(segs, text, color, bold), Seq::empty(), cb.0, cb.1)
    } else {
        segments_from(s, k + 1, segs, text.push(s[k]), color, bold)
    }
}

/// The segments of a line of coloured terminal output.
pub open spec fn ansi_segments(s: Seq<char>) -> Seq<TextSegmentV> {
    segments_from(s, 0, Seq::empty(), Seq::empty(), None, false)
}

/// The end of an escape sequence's numbers lies between their start and
/// the end of the line, on an `m` when it is inside the line.
pub proof fn lemma_code_end_bound(s: Seq<char>, k: int)
    requires
        0 <= k,
    ensures
        k <= code_end(s, k) || k > s.len(),
        code_end(s, k) <= s.len(),
        code_end(s, k) < s.len() ==> s[code_end(s, k)] == 'm',
    decreases s.len() - k,
{
    if 0 <= k < s.len() && s[k] != 'm' {
        lemma_code_end_bound(s, k + 1);
    }
}

/// Splits a line of coloured output (`git log --color`) into segments of
/// one colour and weight each.
pub fn parse_ansi_line(line: &str) -> (r: Vec<TextSegment>)
    ensures
        segments_view(r@) == ansi_segments(line@),
{
    let v = chars_of(line);
    let ghost s = line@;
    let mut segs: Vec<TextSegment> = Vec::new();
    let mut text: Vec<char> = Vec::new();
    let mut color: Option<AnsiColor> = None;
    let mut bold = false;
    let mut k: usize = 0;
    assert(segments_view(segs@) =~= Seq::<TextSegmentV>::empty());
    while k < v.len()
        invariant
            v@ == s,
            k <= v@.len(),
            segments_from(s, k as int, segments_view(segs@), text@, color, bold) == ansi_segments(s),
        decreases v.len() - k,
    {
        if v[k] == '\x1b' && v.len() - k > 1 && v[k + 1] == '[' {
            let ghost before = segments_view(segs@);
            if text.len() > 0 {
                let seg = TextSegment { text: string_of(&text), color, bold };
                segs.push(seg);
                assert(segments_view(segs@) =~= before.push(seg@));
            }
            assert(segments_view(segs@) == flushed(before, text@, color, bold));
            let mut code: Vec<char> = Vec::new();
            let mut j: usize = k + 2;
            assert(s.subrange(k + 2, j as int) =~= Seq::<char>::empty());
            while j < v.len() && v[j] != 'm'
                invariant
                    v@ == s,
                    k + 2 <= j <= v@.len(),
                    code@ == filter_map(s.subrange(k + 2, j as int), keep_code_char()),
                    code_end(s, k + 2) == code_end(s, j as int),
                decreases v.len() - j,
            {
                let c = v[j];
                proof {
                    let t = s.subrange(k + 2, j + 1);
                    assert(t.drop_last() =~= s.subrange(k + 2, j as int));
                    assert(t.last() == c);
                }
                if ('0' <= c && c <= '9') || c == ';' {
                    code.push(c);
                }
                j = j + 1;
            }
            let ghost e = code_end(s, k + 2);
            assert(e == j);
            let next = if j < v.len() {
                j + 1
            } else {
                j
            };
            let cb = if code.len() == 0 || is_lit(&code, "0") {
                (None, false)
            } else {
                let parts = split_char(&code, ';');
                apply_codes_exec(&parts, color, bold)
            };
            color = cb.0;
            bold = cb.1;
            text = Vec::new();
            k = next;
        } else {
            text.push(v[k]);
            k = k + 1;
        }
    }
    let ghost before = segments_view(segs@);
    if text.len() > 0 {
        let seg = TextSegment { text: string_of(&text), color, bold };
        segs.push(seg);
        assert(segments_view(segs@) =~= before.push(seg@));
    }
    segs
}


// ---------------------------------------------------------------------------
// Laws

/// The characters of `s` from `k` on that are not part of an escape
/// sequence.
pub open spec fn plain_from(s: Seq<char>, k: int) -> Seq<char>
    decreases s.len() - k,
{
    if k < 0 || k >= s.len() {
        Seq::empty()
    } else if s[k] == '\x1b' && k + 1 < s.len() && s[k + 1] == '[' {
        let e = code_end(s, k + 2);
        let next = if e < s.len() { e + 1 } else { e };
        proof {
            lemma_code_end_bound(s, k + 2);
        }
        plain_from(s, next)
    } else {
        seq![s[k]] + plain_from(s, k + 1)
    }
}

/// The texts of the segments, one after the other.
pub open spec fn joined_texts(segs: Seq<TextSegmentV>) -> Seq<char>
    decreases segs.len(),
{
    if segs.len() == 0 {
        Seq::empty()
    } else {
        joined_texts(segs.drop_last()) + segs.last().text
    }
}

proof fn lemma_segments_from(
    s: Seq<char>,
    k: int,
    segs: Seq<TextSegmentV>,
    text: Seq<char>,
    color: Option<AnsiColor>,
    bold: bool,
)
    requires
        0 <= k,
        forall|i: int| 0 <= i < segs.len() ==> (#[trigger] segs[i]).text.len() > 0,
    ensures
        joined_texts(segments_from(s, k, segs, text, color, bold)) == joined_texts(segs) + text + plain_from(s, k),
        forall|i: int| 0 <= i < segments_from(s, k, segs, text, color, bold).len()
            ==> (#[trigger] segments_from(s, k, segs, text, color, bold)[i]).text.len() > 0,
    decreases s.len() - k,
{
    let f = flushed(segs, text, color, bold);
    assert(joined_texts(f) == joined_texts(segs) + text) by {
        if text.len() > 0 {
            assert(f.drop_last() =~= segs);
        } else {
            assert(joined_texts(segs) + text =~= joined_texts(segs));
        }
    }
    assert forall|i: int| 0 <= i < f.len() implies (#[trigger] f[i]).text.len() > 0 by {
        if i < segs.len() {
            assert(f[i] == segs[i]);
        }
    }
    if k >= s.len() {
        assert(joined_texts(segs) + text + Seq::<char>::empty() =~= joined_texts(segs) + text);
    } else if s[k] == '\x1b' && k + 1 < s.len() && s[k + 1] == '[' {
        let e = code_end(s, k + 2);
        let code = filter_map(s.subrange(k + 2, e), keep_code_char());
        let next = if e < s.len() { e + 1 } else { e };
        let cb = after_codes(code, color, bold);
        lemma_code_end_bound(s, k + 2);
        lemma_segments_from(s, next, f, Seq::empty(), cb.0, cb.1);
        assert(joined_texts(f) + Seq::<char>::empty() + plain_from(s, next) =~= joined_texts(segs) + text + plain_from(
            s,
            k,
        ));
    } else {
        lemma_segments_from(s, k + 1, segs, text.push(s[k]), color, bold);
        assert(joined_texts(segs) + text.push(s[k]) + plain_from(s, k + 1) =~= joined_texts(segs) + text + (seq![s[k]]
            + plain_from(s, k + 1)));
    }
}

/// Splitting a coloured line loses and adds no text: the segments' texts,
/// one after the other, are the line without its escape sequences; and no
/// segment is empty.
pub proof fn lemma_ansi_text_kept(s: Seq<char>)
    ensures
        joined_texts(ansi_segments(s)) == plain_from(s, 0),
        forall|i: int| 0 <= i < ansi_segments(s).len() ==> (#[trigger] ansi_segments(s)[i]).text.len() > 0,
{
    lemma_segments_from(s, 0, Seq::empty(), Seq::empty(), None, false);
    assert(joined_texts(Seq::<TextSegmentV>::empty()) + Seq::<char>::empty() + plain_from(s, 0) =~= plain_from(s, 0));
}


// ---------------------------------------------------------------------------
// The commit a graph row names

/// An ASCII letter or digit.
pub open spec fn is_ascii_alnum(c: char) -> bool {
    ('0' <= c && c <= '9') || ('a' <= c && c <= 'z') || ('A' <= c && c <= 'Z')
}

fn is_ascii_alnum_exec(c: char) -> (r: bool)
    ensures
        r == is_ascii_alnum(c),
{
    ('0' <= c && c <= '9') || ('a' <= c && c <= 'z') || ('A' <= c && c <= 'Z')
}

/// The position of the first ASCII letter or digit of `w` from `k` on (its
/// length when there is none).
pub open spec fn alnum_start(w: Seq<char>, k: int) -> int
    decreases w.len() - k,
{
    if 0 <= k < w.len() && !is_ascii_alnum(w[k]) {
        alnum_start(w, k + 1)
    } else {
        k
    }
}

/// The position after the last ASCII letter or digit of `w` before `k`, not
/// below `lo`.
pub open spec fn alnum_end(w: Seq<char>, k: int, lo: int) -> int
    decreases k - lo,
{
    if lo < k <= w.len() && !is_ascii_alnum(w[k - 1]) {
        alnum_end(w, k - 1, lo)
    } else {
        k
    }
}

/// A word without the characters other than ASCII letters and digits at
/// either end (`trim_matches`).
pub open spec fn strip_non_alnum(w: Seq<char>) -> Seq<char> {
    let lo = alnum_start(w, 0);
    w.subrange(lo, alnum_end(w, w.len() as int, lo))
}

fn strip_non_alnum_exec(w: &Vec<char>) -> (r: Vec<char>)
    ensures
        r@ == strip_non_alnum(w@),
{
    let mut lo: usize = 0;
    while lo < w.len() && !is_ascii_alnum_exec(w[lo])
        invariant
            lo <= w@.len(),
            alnum_start(w@, 0) == alnum_start(w@, lo as int),
        decreases w.len() - lo,
    {
        lo = lo + 1;
    }
    let mut hi: usize = w.len();
    while hi > lo && !is_ascii_alnum_exec(w[hi - 1])
        invariant
            lo <= hi <= w@.len(),
            lo == alnum_start(w@, 0),
            alnum_end(w@, w@.len() as int, lo as int) == alnum_end(w@, hi as int, lo as int),
        decreases hi - lo,
    {
        hi = hi - 1;
    }
    slice_of(w, lo, hi)
}

/// The hash a stretch of a graph row names: its trimmed text when that looks
/// like a short hash, else the first of its words that, stripped of other
/// characters at its ends, does.
pub open spec fn hash_in_text(text: Seq<char>) -> Option<Seq<char>> {
    let tr = trim(text);
    if short_hash_like(tr) {
        Some(tr)
    } else {
        first_hash_word(ws_tokens(tr), 0)
    }
}

/// The first of `words`, from position `k` on, that names a hash once
/// stripped (see `strip_non_alnum`), stripped.
pub open spec fn first_hash_word(words: Seq<Seq<char>>, k: int) -> Option<Seq<char>>
    decreases words.len() - k,
{
    if k < 0 || k >= words.len() {
        None
    } else if short_hash_like(strip_non_alnum(words[k])) {
        Some(strip_non_alnum(words[k]))
    } else {
        first_hash_word(words, k + 1)
    }
}

/// The hash of the first stretch, from position `k` on, that names one.
pub open spec fn first_segment_hash(segs: Seq<TextSegmentV>, k: int) -> Option<Seq<char>>
    decreases segs.len() - k,
{
    if k < 0 || k >= segs.len() {
        None
    } else {
        match hash_in_text(segs[k].text) {
            Some(h) => Some(h),
            None => first_segment_hash(segs, k + 1),
        }
    }
}

fn hash_in_text_exec(text: &String) -> (r: Option<Vec<char>>)
    ensures
        match hash_in_text(text@) {
            Some(h) => r matches Some(v) && v@ == h,
            None => r is None,
        },
{
    let tr = trim_vec(&chars_of(text.as_str()));
    if looks_like_short_hash(string_of(&tr).as_str()) {
        return Some(tr);
    }
    let words = ws_tokens_exec(&tr);
    let ghost wv = vviews(words@);
    let mut k: usize = 0;
    while k < words.len()
        invariant
            k <= words@.len(),
            wv == vviews(words@),
            wv == ws_tokens(tr@),
            hash_in_text(text@) == first_hash_word(wv, k as int),
        decreases words.len() - k,
    {
        let s = strip_non_alnum_exec(&words[k]);
        assert(wv[k as int] == words@[k as int]@);
        if looks_like_short_hash(string_of(&s).as_str()) {
            return Some(s);
        }
        k = k + 1;
    }
    None
}

/// The commit a row of the commit graph names (see `first_segment_hash`,
/// over the row's coloured stretches), if any: clicking the row selects it.
pub fn graph_row_hash(line: &str) -> (r: Option<String>)
    ensures
        match first_segment_hash(ansi_segments(line@), 0) {
            Some(h) => r matches Some(s) && s@ == h,
            None => r is None,
        },
{
    let segs = parse_ansi_line(line);
    let ghost sv = segments_view(segs@);
    let mut k: usize = 0;
    while k < segs.len()
        invariant
            k <= segs@.len(),
            sv == segments_view(segs@),
            sv == ansi_segments(line@),
            first_segment_hash(sv, 0) == first_segment_hash(sv, k as int),
        decreases segs.len() - k,
    {
        assert(sv[k as int].text == segs@[k as int].text@);
        match hash_in_text_exec(&segs[k].text) {
            Some(h) => {
                return Some(string_of(&h));
            },
            None => {},
        }
        k = k + 1;
    }
    None
}

} // verus!
