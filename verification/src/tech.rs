//! Which language and framework a repository uses, and their versions,
//! found from the files a rule names and patterns over their contents.
use vstd::prelude::*;
use crate::git::{lit, strings_view};
use crate::text::{chars_of, contains_seq, str_eq};

verus! {

/// What the first capture group of the regular expression `pattern`
/// matches at its leftmost match in `text`; none when the pattern does not
/// compile, does not match, or its first group takes no part in the match.
pub uninterp spec fn first_capture(pattern: Seq<char>, text: Seq<char>) -> Option<Seq<char>>;

/// `Regex::new(pattern)` and then `captures(text)` and `get(1)`. Its result is
/// named `first_capture` of the arguments; the regular-expression semantics
/// are not restated. What is captured is a part of `text`.
#[verifier::external_body]
fn regex_first_capture(pattern: &str, text: &str) -> (r: Option<String>)
    ensures
        match r {
            Some(c) => first_capture(pattern@, text@) == Some(c@) && contains_seq(text@, c@),
            None => first_capture(pattern@, text@) is None,
        },
{
    match regex::Regex::new(pattern) {
        Ok(re) => re.captures(text).and_then(|c| c.get(1)).map(|m| m.as_str().to_string()),
        Err(_) => None,
    }
}

/// A file whose contents give a version, and the pattern whose first group
/// is the version.
#[derive(Clone, Debug, PartialEq, Eq)]
pub struct VersionFileRule {
    pub file: String,
    pub regex: String,
}

/// A technology: its language and framework, and the files that give their
/// versions (the first file present whose pattern matches wins).
#[derive(Clone, Debug, PartialEq, Eq)]
pub struct TechRule {
    pub name: String,
    pub language: String,
    pub lang_version_files: Vec<VersionFileRule>,
    pub framework: String,
    pub framework_version_files: Vec<VersionFileRule>,
}

/// What was found: language, its version, framework, its version; `-`
/// where nothing was found.
#[derive(Clone, Debug, PartialEq, Eq)]
pub struct TechInfo {
    pub language: String,
    pub lang_version: String,
    pub framework: String,
    pub framework_version: String,
}

pub struct TechRuleV {
    pub name: Seq<char>,
    pub language: Seq<char>,
    pub lang_files: Seq<(Seq<char>, Seq<char>)>,
    pub framework: Seq<char>,
    pub framework_files: Seq<(Seq<char>, Seq<char>)>,
}

pub open spec fn vfs_view(s: Seq<VersionFileRule>) -> Seq<(Seq<char>, Seq<char>)> {
    s.map_values(|v: VersionFileRule| (v.file@, v.regex@))
}

impl View for TechRule {
    type V = TechRuleV;

    open spec fn view(&self) -> TechRuleV {
        TechRuleV {
            name: self.name@,
            language: self.language@,
            lang_files: vfs_view(self.lang_version_files@),
            framework: self.framework@,
            framework_files: vfs_view(self.framework_version_files@),
        }
    }
}

pub open spec fn rules_view(s: Seq<TechRule>) -> Seq<TechRuleV> {
    s.map_values(|r: TechRule| r@)
}

pub open spec fn info_view(t: TechInfo) -> (Seq<char>, Seq<char>, Seq<char>, Seq<char>) {
    (t.language@, t.lang_version@, t.framework@, t.framework_version@)
}

// ---------------------------------------------------------------------------
// The default rules

pub open spec fn vf(file: Seq<char>, regex: Seq<char>) -> (Seq<char>, Seq<char>) {
    (file, regex)
}

/// The rules used when none are configured: Ruby on Rails, Node.js and
/// Django.
pub open spec fn default_rules() -> Seq<TechRuleV> {
    seq![
        TechRuleV {
            name: "Ruby on Rails"@,
            language: "Ruby"@,
            lang_files: seq![
                vf(".ruby-version"@, r"(?:ruby-)?([0-9.]+)"@),
                vf("Gemfile.lock"@, r"RUBY VERSION\s+ruby\s+([0-9.]+)"@),
            ],
            framework: "Rails"@,
            framework_files: seq![vf("Gemfile.lock"@, r"\srails\s+\(([0-9.]+)\)"@)],
        },
        TechRuleV {
            name: "Node.js"@,
            language: "JavaScript/TypeScript"@,
            lang_files: seq![
                vf(".nvmrc"@, r"^v?([0-9.]+)"@),
                vf("package.json"@, r#""node"\s*:\s*"[^"0-9]*([0-9.]+)"#@),
            ],
            framework: "Next/React/Express"@,
            framework_files: seq![
                vf("package.json"@, r#""next"\s*:\s*"[^"0-9]*([0-9.]+)"#@),
                vf("package.json"@, r#""express"\s*:\s*"[^"0-9]*([0-9.]+)"#@),
                vf("package.json"@, r#""react"\s*:\s*"[^"0-9]*([0-9.]+)"#@),
            ],
        },
        TechRuleV {
            name: "Django"@,
            language: "Python"@,
            lang_files: seq![
                vf(".python-version"@, r"^([0-9.]+)"@),
                vf("runtime.txt"@, r"python-([0-9.]+)"@),
            ],
            framework: "Django"@,
            framework_files: seq![
                vf("requirements.txt"@, r"(?:[Dd]jango|Django)==([0-9.]+)"@),
                vf("Pipfile"@, r#"(?:django|Django)\s*=\s*"[^"0-9]*([0-9.]+)"#@),
            ],
        },
    ]
}

fn version_file(file: &str, regex: &str) -> (r: VersionFileRule)
    ensures
        r.file@ == file@,
        r.regex@ == regex@,
{
    VersionFileRule { file: lit(file), regex: lit(regex) }
}

/// The rules used when none are configured (see `default_rules`).
pub fn get_default_rules() -> (r: Vec<TechRule>)
    ensures
        rules_view(r@) == default_rules(),
{
    let mut rails_lang: Vec<VersionFileRule> = Vec::new();
    rails_lang.push(version_file(".ruby-version", r"(?:ruby-)?([0-9.]+)"));
    rails_lang.push(version_file("Gemfile.lock", r"RUBY VERSION\s+ruby\s+([0-9.]+)"));
    let mut rails_fw: Vec<VersionFileRule> = Vec::new();
    rails_fw.push(version_file("Gemfile.lock", r"\srails\s+\(([0-9.]+)\)"));
    let mut node_lang: Vec<VersionFileRule> = Vec::new();
    node_lang.push(version_file(".nvmrc", r"^v?([0-9.]+)"));
    node_lang.push(version_file("package.json", r#""node"\s*:\s*"[^"0-9]*([0-9.]+)"#));
    let mut node_fw: Vec<VersionFileRule> = Vec::new();
    node_fw.push(version_file("package.json", r#""next"\s*:\s*"[^"0-9]*([0-9.]+)"#));
    node_fw.push(version_file("package.json", r#""express"\s*:\s*"[^"0-9]*([0-9.]+)"#));
    node_fw.push(version_file("package.json", r#""react"\s*:\s*"[^"0-9]*([0-9.]+)"#));
    let mut django_lang: Vec<VersionFileRule> = Vec::new();
    django_lang.push(version_file(".python-version", r"^([0-9.]+)"));
    django_lang.push(version_file("runtime.txt", r"python-([0-9.]+)"));
    let mut django_fw: Vec<VersionFileRule> = Vec::new();
    django_fw.push(version_file("requirements.txt", r"(?:[Dd]jango|Django)==([0-9.]+)"));
    django_fw.push(version_file("Pipfile", r#"(?:django|Django)\s*=\s*"[^"0-9]*([0-9.]+)"#));
    let mut r: Vec<TechRule> = Vec::new();
    r.push(
        TechRule {
            name: lit("Ruby on Rails"),
            language: lit("Ruby"),
            lang_version_files: rails_lang,
            framework: lit("Rails"),
            framework_version_files: rails_fw,
        },
    );
    r.push(
        TechRule {
            name: lit("Node.js"),
            language: lit("JavaScript/TypeScript"),
            lang_version_files: node_lang,
            framework: lit("Next/React/Express"),
            framework_version_files: node_fw,
        },
    );
    r.push(
        TechRule {
            name: lit("Django"),
            language: lit("Python"),
            lang_version_files: django_lang,
            framework: lit("Django"),
            framework_version_files: django_fw,
        },
    );
    assert(rules_view(r@) =~= default_rules()) by {
        assert(vfs_view(r@[0].lang_version_files@) =~= default_rules()[0].lang_files);
        assert(vfs_view(r@[0].framework_version_files@) =~= default_rules()[0].framework_files);
        assert(vfs_view(r@[1].lang_version_files@) =~= default_rules()[1].lang_files);
        assert(vfs_view(r@[1].framework_version_files@) =~= default_rules()[1].framework_files);
        assert(vfs_view(r@[2].lang_version_files@) =~= default_rules()[2].lang_files);
        assert(vfs_view(r@[2].framework_version_files@) =~= default_rules()[2].framework_files);
    }
    r
}


// ---------------------------------------------------------------------------
// Choosing

pub open spec fn outcomes_view(s: Seq<(bool, Option<String>)>) -> Seq<(bool, Option<Seq<char>>)> {
    s.map_values(|o: (bool, Option<String>)| (o.0, match o.1 {
        Some(v) => Some(v@),
        None => None,
    }))
}

pub open spec fn any_present(os: Seq<(bool, Option<Seq<char>>)>) -> bool {
    exists|i: int| 0 <= i < os.len() && (#[trigger] os[i]).0
}

/// The version of the first file, from `i` on, that is present and gave one.
pub open spec fn first_found(os: Seq<(bool, Option<Seq<char>>)>, i: int) -> Option<Seq<char>>
    decreases os.len() - i,
{
    if i < 0 || i >= os.len() {
        None
    } else if os[i].0 && os[i].1 is Some {
        os[i].1
    } else {
        first_found(os, i + 1)
    }
}

pub open spec fn or_dash(v: Option<Seq<char>>) -> Seq<char> {
    match v {
        Some(x) => x,
        None => "-"@,
    }
}

/// The first rule, from `i` on, with a version file present (for the
/// language or the framework) decides: its language and framework, with
/// the versions found (`-` where none); `-` everywhere when no rule does.
pub open spec fn tech_choice(
    rules: Seq<TechRuleV>,
    outs: Seq<(Seq<(bool, Option<Seq<char>>)>, Seq<(bool, Option<Seq<char>>)>)>,
    i: int,
) -> (Seq<char>, Seq<char>, Seq<char>, Seq<char>)
    decreases rules.len() - i,
{
    if i < 0 || i >= rules.len() || i >= outs.len() {
        ("-"@, "-"@, "-"@, "-"@)
    } else if any_present(outs[i].0) || any_present(outs[i].1) {
        (rules[i].language, or_dash(first_found(outs[i].0, 0)), rules[i].framework, or_dash(first_found(outs[i].1, 0)))
    } else {
        tech_choice(rules, outs, i + 1)
    }
}

pub open spec fn all_outcomes_view(s: Seq<(Vec<(bool, Option<String>)>, Vec<(bool, Option<String>)>)>) -> Seq<
    (Seq<(bool, Option<Seq<char>>)>, Seq<(bool, Option<Seq<char>>)>),
> {
    s.map_values(|p: (Vec<(bool, Option<String>)>, Vec<(bool, Option<String>)>)| (outcomes_view(p.0@), outcomes_view(p.1@)))
}

fn scan_outcomes(os: &Vec<(bool, Option<String>)>) -> (r: (bool, Option<String>))
    ensures
        r.0 == any_present(outcomes_view(os@)),
        match r.1 {
            Some(v) => first_found(outcomes_view(os@), 0) == Some(v@),
            None => first_found(outcomes_view(os@), 0) is None,
        },
{
    let ghost ov = outcomes_view(os@);
    let mut present = false;
    let mut found: Option<String> = None;
    let mut i: usize = os.len();
    while i > 0
        invariant
            i <= os@.len(),
            ov == outcomes_view(os@),
            ov.len() == os@.len(),
            present == exists|j: int| i <= j < ov.len() && (#[trigger] ov[j]).0,
            match found {
                Some(v) => first_found(ov, i as int) == Some(v@),
                None => first_found(ov, i as int) is None,
            },
        decreases i,
    {
        i = i - 1;
        assert(ov[i as int] == (os@[i as int].0, match os@[i as int].1 {
            Some(v) => Some(v@),
            None => None,
        }));
        let (p, v) = &os[i];
        if *p {
            present = true;
            match v {
                Some(x) => {
                    found = Some(x.clone());
                },
                None => {},
            }
        }
    }
    (present, found)
}

/// The technology the rules find, given for each rule (in order) the
/// outcomes of its language and framework version files (see
/// `tech_choice`).
pub fn choose_tech(rules: &Vec<TechRule>, outcomes: &Vec<(Vec<(bool, Option<String>)>, Vec<(bool, Option<String>)>)>) -> (r: TechInfo)
    ensures
        info_view(r) == tech_choice(rules_view(rules@), all_outcomes_view(outcomes@), 0),
{
    let ghost rv = rules_view(rules@);
    let ghost av = all_outcomes_view(outcomes@);
    let mut i: usize = 0;
    while i < rules.len() && i < outcomes.len()
        invariant
            i <= rules@.len(),
            rv == rules_view(rules@),
            av == all_outcomes_view(outcomes@),
            tech_choice(rv, av, 0) == tech_choice(rv, av, i as int),
        decreases rules.len() - i,
    {
        let (lp, lv) = scan_outcomes(&outcomes[i].0);
        let (fp, fv) = scan_outcomes(&outcomes[i].1);
        assert(av[i as int] == (outcomes_view(outcomes@[i as int].0@), outcomes_view(outcomes@[i as int].1@)));
        assert(rv[i as int] == rules@[i as int]@);
        if lp || fp {
            let r = &rules[i];
            return TechInfo {
                language: r.language.clone(),
                lang_version: match lv {
                    Some(v) => v,
                    None => lit("-"),
                },
                framework: r.framework.clone(),
                framework_version: match fv {
                    Some(v) => v,
                    None => lit("-"),
                },
            };
        }
        i = i + 1;
    }
    TechInfo { language: lit("-"), lang_version: lit("-"), framework: lit("-"), framework_version: lit("-") }
}

// ---------------------------------------------------------------------------
// From the files of a repository

/// The entry for file `name` among the files present (each with its text
/// when it could be read): the first with that name.
pub open spec fn probe_of(files: Seq<(Seq<char>, Option<Seq<char>>)>, name: Seq<char>, i: int) -> Option<Option<Seq<char>>>
    decreases files.len() - i,
{
    if i < 0 || i >= files.len() {
        None
    } else if files[i].0 == name {
        Some(files[i].1)
    } else {
        probe_of(files, name, i + 1)
    }
}

/// The outcome of one version file: present when it is among the files;
/// the version is what its pattern captures in the file's text.
pub open spec fn file_outcome(files: Seq<(Seq<char>, Option<Seq<char>>)>, f: (Seq<char>, Seq<char>)) -> (bool, Option<Seq<char>>) {
    match probe_of(files, f.0, 0) {
        None => (false, None),
        Some(None) => (true, None),
        Some(Some(text)) => (true, first_capture(f.1, text)),
    }
}

pub open spec fn rule_outcomes(files: Seq<(Seq<char>, Option<Seq<char>>)>, r: TechRuleV) -> (
    Seq<(bool, Option<Seq<char>>)>,
    Seq<(bool, Option<Seq<char>>)>,
) {
    (
        r.lang_files.map_values(|f: (Seq<char>, Seq<char>)| file_outcome(files, f)),
        r.framework_files.map_values(|f: (Seq<char>, Seq<char>)| file_outcome(files, f)),
    )
}

pub open spec fn present_view(s: Seq<(String, Option<String>)>) -> Seq<(Seq<char>, Option<Seq<char>>)> {
    s.map_values(|p: (String, Option<String>)| (p.0@, match p.1 {
        Some(t) => Some(t@),
        None => None,
    }))
}

fn outcome_of(files: &Vec<(String, Option<String>)>, f: &VersionFileRule) -> (r: (bool, Option<String>))
    ensures
        (r.0, match r.1 {
            Some(v) => Some(v@),
            None => None,
        }) == file_outcome(present_view(files@), (f.file@, f.regex@)),
{
    let ghost pv = present_view(files@);
    let mut i: usize = 0;
    while i < files.len()
        invariant
            i <= files@.len(),
            pv == present_view(files@),
            pv.len() == files@.len(),
            probe_of(pv, f.file@, 0) == probe_of(pv, f.file@, i as int),
        decreases files.len() - i,
    {
        assert(pv[i as int] == (files@[i as int].0@, match files@[i as int].1 {
            Some(t) => Some(t@),
            None => None,
        }));
        if str_eq(files[i].0.as_str(), f.file.as_str()) {
            return match &files[i].1 {
                None => (true, None),
                Some(text) => (true, regex_first_capture(f.regex.as_str(), text.as_str())),
            };
        }
        i = i + 1;
    }
    (false, None)
}

fn outcomes_of(files: &Vec<(String, Option<String>)>, vfs: &Vec<VersionFileRule>) -> (r: Vec<(bool, Option<String>)>)
    ensures
        outcomes_view(r@) == vfs_view(vfs@).map_values(|f: (Seq<char>, Seq<char>)| file_outcome(present_view(files@), f)),
{
    let ghost g = |f: (Seq<char>, Seq<char>)| file_outcome(present_view(files@), f);
    let mut r: Vec<(bool, Option<String>)> = Vec::new();
    let mut i: usize = 0;
    while i < vfs.len()
        invariant
            i <= vfs@.len(),
            g == (|f: (Seq<char>, Seq<char>)| file_outcome(present_view(files@), f)),
            outcomes_view(r@) == vfs_view(vfs@).take(i as int).map_values(g),
        decreases vfs.len() - i,
    {
        let o = outcome_of(files, &vfs[i]);
        let ghost prev = r@;
        r.push(o);
        proof {
            assert(vfs_view(vfs@)[i as int] == (vfs@[i as int].file@, vfs@[i as int].regex@));
            assert(vfs_view(vfs@).take(i + 1) =~= vfs_view(vfs@).take(i as int).push(vfs_view(vfs@)[i as int]));
            assert(outcomes_view(r@) =~= outcomes_view(prev).push(g(vfs_view(vfs@)[i as int])));
            assert(vfs_view(vfs@).take(i as int).push(vfs_view(vfs@)[i as int]).map_values(g)
                =~= vfs_view(vfs@).take(i as int).map_values(g).push(g(vfs_view(vfs@)[i as int])));
        }
        i = i + 1;
    }
    assert(vfs_view(vfs@).take(vfs@.len() as int) =~= vfs_view(vfs@));
    r
}

/// The technology of a repository by the rules, given the files of the
/// repository that the rules name and that are present, each with its text
/// when it could be read.
pub fn detect_tech_info_with_rules(files: &Vec<(String, Option<String>)>, rules: &Vec<TechRule>) -> (r: TechInfo)
    ensures
        info_view(r) == tech_choice(
            rules_view(rules@),
            rules_view(rules@).map_values(|t: TechRuleV| rule_outcomes(present_view(files@), t)),
            0,
        ),
{
    let mut outs: Vec<(Vec<(bool, Option<String>)>, Vec<(bool, Option<String>)>)> = Vec::new();
    let ghost h = |t: TechRuleV| rule_outcomes(present_view(files@), t);
    let mut i: usize = 0;
    while i < rules.len()
        invariant
            i <= rules@.len(),
            h == (|t: TechRuleV| rule_outcomes(present_view(files@), t)),
            all_outcomes_view(outs@) == rules_view(rules@).take(i as int).map_values(h),
        decreases rules.len() - i,
    {
        let lo = outcomes_of(files, &rules[i].lang_version_files);
        let fo = outcomes_of(files, &rules[i].framework_version_files);
        let ghost prev = outs@;
        outs.push((lo, fo));
        proof {
            let rv = rules_view(rules@);
            assert(rv[i as int] == rules@[i as int]@);
            assert(rv.take(i + 1) =~= rv.take(i as int).push(rv[i as int]));
            assert(all_outcomes_view(outs@) =~= all_outcomes_view(prev).push(h(rv[i as int])));
            assert(rv.take(i as int).push(rv[i as int]).map_values(h) =~= rv.take(i as int).map_values(h).push(h(rv[i as int])));
        }
        i = i + 1;
    }
    assert(rules_view(rules@).take(rules@.len() as int) =~= rules_view(rules@));
    choose_tech(rules, &outs)
}

/// The names of version files.
pub open spec fn file_names(vfs: Seq<VersionFileRule>) -> Seq<Seq<char>> {
    vfs.map_values(|v: VersionFileRule| v.file@)
}

/// The names of the files the rules look at, with repeats, in rule order:
/// each rule's language files, then its framework files.
pub open spec fn all_file_names(rules: Seq<TechRule>) -> Seq<Seq<char>>
    decreases rules.len(),
{
    if rules.len() == 0 {
        Seq::empty()
    } else {
        all_file_names(rules.drop_last()) + file_names(rules.last().lang_version_files@) + file_names(
            rules.last().framework_version_files@,
        )
    }
}

/// `acc` followed by the names not yet in it, each the first time it comes.
pub open spec fn add_names(acc: Seq<Seq<char>>, names: Seq<Seq<char>>) -> Seq<Seq<char>>
    decreases names.len(),
{
    if names.len() == 0 {
        acc
    } else {
        let p = add_names(acc, names.drop_last());
        if p.contains(names.last()) {
            p
        } else {
            p.push(names.last())
        }
    }
}

/// Adding names in two steps is adding them all at once.
proof fn lemma_add_names_concat(acc: Seq<Seq<char>>, a: Seq<Seq<char>>, b: Seq<Seq<char>>)
    ensures
        add_names(add_names(acc, a), b) == add_names(acc, a + b),
    decreases b.len(),
{
    if b.len() == 0 {
        assert(a + b =~= a);
    } else {
        lemma_add_names_concat(acc, a, b.drop_last());
        assert((a + b).drop_last() =~= a + b.drop_last());
        assert((a + b).last() == b.last());
    }
}

/// What `add_names` holds: exactly the names of `acc` and `names`, none
/// twice when `acc` has none twice.
proof fn lemma_add_names_contents(acc: Seq<Seq<char>>, names: Seq<Seq<char>>)
    ensures
        forall|x: Seq<char>| add_names(acc, names).contains(x) <==> (acc.contains(x) || names.contains(x)),
        acc.no_duplicates() ==> add_names(acc, names).no_duplicates(),
    decreases names.len(),
{
    if names.len() > 0 {
        let init = names.drop_last();
        lemma_add_names_contents(acc, init);
        let p = add_names(acc, init);
        assert forall|x: Seq<char>| add_names(acc, names).contains(x) <==> (acc.contains(x) || names.contains(x)) by {
            if names.contains(x) && !init.contains(x) {
                assert(x == names.last()) by {
                    let j = choose|j: int| 0 <= j < names.len() && names[j] == x;
                    if j < names.len() - 1 {
                        assert(init[j] == x);
                    }
                }
            }
            if init.contains(x) {
                let j = choose|j: int| 0 <= j < init.len() && init[j] == x;
                assert(names[j] == x);
            }
            if !p.contains(names.last()) {
                let q = p.push(names.last());
                if p.contains(x) {
                    let j = choose|j: int| 0 <= j < p.len() && p[j] == x;
                    assert(q[j] == x);
                }
                if q.contains(x) && x != names.last() {
                    let j = choose|j: int| 0 <= j < q.len() && q[j] == x;
                    assert(p[j] == x);
                }
                assert(q[p.len() as int] == names.last());
            }
        }
    }
}

/// The names of the files the rules look at, each once, in rule order: the
/// files to read before `detect_tech_info_with_rules`.
pub fn rule_files(rules: &Vec<TechRule>) -> (r: Vec<String>)
    ensures
        strings_view(r@) == add_names(Seq::empty(), all_file_names(rules@)),
        strings_view(r@).no_duplicates(),
        forall|x: Seq<char>| strings_view(r@).contains(x) <==> all_file_names(rules@).contains(x),
{
    let mut r: Vec<String> = Vec::new();
    let mut i: usize = 0;
    assert(rules@.take(0) =~= Seq::<TechRule>::empty());
    while i < rules.len()
        invariant
            i <= rules@.len(),
            strings_view(r@) == add_names(Seq::empty(), all_file_names(rules@.take(i as int))),
        decreases rules.len() - i,
    {
        let ghost acc0 = strings_view(r@);
        let ghost la = file_names(rules@[i as int].lang_version_files@);
        let ghost fw = file_names(rules@[i as int].framework_version_files@);
        add_files(&mut r, &rules[i].lang_version_files);
        add_files(&mut r, &rules[i].framework_version_files);
        proof {
            let pre = all_file_names(rules@.take(i as int));
            assert(rules@.take(i + 1).drop_last() =~= rules@.take(i as int));
            assert(rules@.take(i + 1).last() == rules@[i as int]);
            lemma_add_names_concat(Seq::empty(), pre, la);
            lemma_add_names_concat(Seq::empty(), pre + la, fw);
            assert(pre + la + fw =~= all_file_names(rules@.take(i + 1)));
        }
        i = i + 1;
    }
    assert(rules@.take(rules@.len() as int) =~= rules@);
    proof {
        lemma_add_names_contents(Seq::empty(), all_file_names(rules@));
    }
    r
}

fn add_files(r: &mut Vec<String>, vfs: &Vec<VersionFileRule>)
    ensures
        strings_view(final(r)@) == add_names(strings_view(old(r)@), file_names(vfs@)),
{
    let ghost start = strings_view(r@);
    let ghost names = file_names(vfs@);
    let mut k: usize = 0;
    assert(names.take(0) =~= Seq::<Seq<char>>::empty());
    while k < vfs.len()
        invariant
            k <= vfs@.len(),
            names == file_names(vfs@),
            strings_view(r@) == add_names(start, names.take(k as int)),
        decreases vfs.len() - k,
    {
        proof {
            assert(names.take(k + 1).drop_last() =~= names.take(k as int));
            assert(names.take(k + 1).last() == vfs@[k as int].file@);
        }
        let name = &vfs[k].file;
        let mut seen = false;
        let mut j: usize = 0;
        while j < r.len()
            invariant
                j <= r@.len(),
                seen <==> exists|m: int| 0 <= m < j && strings_view(r@)[m] == name@,
            decreases r.len() - j,
        {
            if str_eq(r[j].as_str(), name.as_str()) {
                seen = true;
            }
            proof {
                if strings_view(r@)[j as int] == name@ {
                    assert(exists|m: int| 0 <= m < j + 1 && strings_view(r@)[m] == name@);
                }
            }
            j = j + 1;
        }
        assert(seen <==> strings_view(r@).contains(name@));
        if !seen {
            let ghost prev = strings_view(r@);
            r.push(name.clone());
            assert(strings_view(r@) =~= prev.push(name@));
        }
        k = k + 1;
    }
    assert(names.take(vfs@.len() as int) =~= names);
}

} // verus!
