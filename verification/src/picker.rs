//! The picker of a comparison's base or target: where each tag sits among
//! the listed commits, and which rows a search shows.
use vstd::prelude::*;
use crate::config::Language;
use crate::git::{BranchInfo, CommitSummary, CommitSummaryV, TagInfo, TagInfoV, branch_view, branches_view, commits_view, lit, tags_view};
use crate::i18n::{t, translate};
use crate::repos::{lowercase, to_lowercase};
use crate::text::{chars_of, concat, contains_exec, contains_seq, seq_eq, starts_with, starts_with_exec};

verus! {

// ---------------------------------------------------------------------------
// Tags on commits

/// Whether one of two abbreviated hashes begins with the other.
pub open spec fn hash_related(a: Seq<char>, b: Seq<char>) -> bool {
    starts_with(a, b) || starts_with(b, a)
}

/// The last listed commit whose hash is `h`.
pub open spec fn last_equal_hash(cs: Seq<CommitSummaryV>, h: Seq<char>) -> Option<usize>
    decreases cs.len(),
{
    if cs.len() == 0 {
        None
    } else if cs.last().hash == h {
        Some((cs.len() - 1) as usize)
    } else {
        last_equal_hash(cs.drop_last(), h)
    }
}

/// The first listed commit, from position `k` on, whose hash begins with `h`
/// or with which `h` begins.
pub open spec fn first_related_from(cs: Seq<CommitSummaryV>, h: Seq<char>, k: int) -> Option<usize>
    decreases cs.len() - k,
{
    if k < 0 || k >= cs.len() {
        None
    } else if hash_related(cs[k].hash, h) {
        Some(k as usize)
    } else {
        first_related_from(cs, h, k + 1)
    }
}

/// The commit a tag with hash `h` is shown on: the listed commit with that
/// very hash, else the first whose hash is related to it (abbreviations can
/// differ in length); none for a tag without a hash or without such a
/// commit.
pub open spec fn tag_slot(cs: Seq<CommitSummaryV>, h: Seq<char>) -> Option<usize> {
    if h.len() == 0 {
        None
    } else {
        match last_equal_hash(cs, h) {
            Some(i) => Some(i),
            None => first_related_from(cs, h, 0),
        }
    }
}

/// `tag_slot` of a tag's hash among the commits.
pub fn tag_slot_of(commits: &Vec<CommitSummary>, tag_hash: &str) -> (r: Option<usize>)
    ensures
        r == tag_slot(commits_view(commits@), tag_hash@),
{
    let ghost cs = commits_view(commits@);
    let h = chars_of(tag_hash);
    if h.len() == 0 {
        return None;
    }
    let mut i: usize = commits.len();
    assert(cs.take(i as int) =~= cs);
    while i > 0
        invariant
            i <= commits@.len(),
            cs == commits_view(commits@),
            h@ == tag_hash@,
            h@.len() > 0,
            last_equal_hash(cs, h@) == last_equal_hash(cs.take(i as int), h@),
        decreases i,
    {
        i = i - 1;
        proof {
            assert(cs.take(i + 1).drop_last() =~= cs.take(i as int));
            assert(cs.take(i + 1).last() == cs[i as int]);
            assert(cs[i as int].hash == commits@[i as int].hash@);
        }
        if seq_eq(&chars_of(commits[i].hash.as_str()), &h) {
            return Some(i);
        }
    }
    let mut k: usize = 0;
    while k < commits.len()
        invariant
            k <= commits@.len(),
            cs == commits_view(commits@),
            h@ == tag_hash@,
            h@.len() > 0,
            last_equal_hash(cs, h@) is None,
            first_related_from(cs, h@, 0) == first_related_from(cs, h@, k as int),
        decreases commits.len() - k,
    {
        let c = chars_of(commits[k].hash.as_str());
        assert(cs[k as int].hash == commits@[k as int].hash@);
        if starts_with_exec(&c, &h) || starts_with_exec(&h, &c) {
            return Some(k);
        }
        k = k + 1;
    }
    None
}

/// `tag_slot` of each tag, in order.
pub open spec fn tag_slots_spec(cs: Seq<CommitSummaryV>, tags: Seq<TagInfoV>) -> Seq<Option<usize>> {
    Seq::new(tags.len(), |i: int| tag_slot(cs, tags[i].hash))
}

/// The commit each tag is shown on (see `tag_slot`), in the tags' order.
pub fn tag_slots(commits: &Vec<CommitSummary>, tags: &Vec<TagInfo>) -> (r: Vec<Option<usize>>)
    ensures
        r@ == tag_slots_spec(commits_view(commits@), tags_view(tags@)),
{
    let ghost cs = commits_view(commits@);
    let ghost tv = tags_view(tags@);
    let mut r: Vec<Option<usize>> = Vec::new();
    let mut i: usize = 0;
    while i < tags.len()
        invariant
            i <= tags@.len(),
            cs == commits_view(commits@),
            tv == tags_view(tags@),
            r@ == tag_slots_spec(cs, tv).take(i as int),
        decreases tags.len() - i,
    {
        let s = tag_slot_of(commits, tags[i].hash.as_str());
        r.push(s);
        assert(r@ =~= tag_slots_spec(cs, tv).take(i + 1));
        i = i + 1;
    }
    assert(tag_slots_spec(cs, tv).take(tags@.len() as int) =~= tag_slots_spec(cs, tv));
    r
}


// ---------------------------------------------------------------------------
// The rows a search shows

/// The names of the tags shown on commit `i` (see `tag_slot`), in the tags'
/// order.
pub open spec fn row_tag_names(tags: Seq<TagInfoV>, slots: Seq<Option<usize>>, i: usize) -> Seq<Seq<char>>
    decreases tags.len(),
{
    if tags.len() == 0 || slots.len() == 0 {
        Seq::empty()
    } else {
        let prev = row_tag_names(tags.drop_last(), slots.drop_last(), i);
        if slots.last() == Some(i) {
            prev.push(tags.last().name)
        } else {
            prev
        }
    }
}

/// A space before each name, in order.
pub open spec fn spaced_names(names: Seq<Seq<char>>) -> Seq<char>
    decreases names.len(),
{
    if names.len() == 0 {
        Seq::empty()
    } else {
        spaced_names(names.drop_last()) + " "@ + names.last()
    }
}

/// What the search looks in for a commit (its fields lower-cased): hash,
/// date, author and message separated by spaces, then a space and the name
/// of each tag on it.
pub open spec fn commit_haystack(c: CommitSummaryV, tag_names: Seq<Seq<char>>) -> Seq<char> {
    c.hash + " "@ + c.date + " "@ + c.author + " "@ + c.message + spaced_names(tag_names)
}

/// The commits among the first `n` that the (lower-cased) query `q` shows:
/// all for an empty query, else those whose haystack contains it.
pub open spec fn shown_commits(cs: Seq<CommitSummaryV>, tags: Seq<TagInfoV>, slots: Seq<Option<usize>>, q: Seq<char>, n: nat) -> Seq<usize>
    decreases n,
{
    if n == 0 {
        Seq::empty()
    } else {
        let prev = shown_commits(cs, tags, slots, q, (n - 1) as nat);
        let k = (n - 1) as int;
        if q.len() == 0 || contains_seq(commit_haystack(cs[k], row_tag_names(tags, slots, k as usize)), q) {
            prev.push(k as usize)
        } else {
            prev
        }
    }
}

/// The tags among the first `n` that sit on no listed commit and that the
/// query shows: all for an empty query, else those whose name or message
/// contains it.
pub open spec fn shown_leftover_tags(tags: Seq<TagInfoV>, slots: Seq<Option<usize>>, q: Seq<char>, n: nat) -> Seq<usize>
    decreases n,
{
    if n == 0 {
        Seq::empty()
    } else {
        let prev = shown_leftover_tags(tags, slots, q, (n - 1) as nat);
        let k = (n - 1) as int;
        if slots[k] is None && (q.len() == 0 || contains_seq(tags[k].name, q) || contains_seq(tags[k].message, q)) {
            prev.push(k as usize)
        } else {
            prev
        }
    }
}

/// The branches the query shows: the eight most recent when it is empty,
/// else those whose name contains it.
pub open spec fn shown_branches(names: Seq<Seq<char>>, q: Seq<char>) -> Seq<usize> {
    if q.len() == 0 {
        Seq::new(if names.len() < 8 { names.len() } else { 8 }, |i: int| i as usize)
    } else {
        crate::search::matching_indices(names, q)
    }
}

/// Whether the row of the uncommitted changes shows: when it is offered at
/// all, for an empty query, or one that the row's (lower-cased) label
/// contains or that is part of "uncommitted", "working" or "未コミット".
pub open spec fn working_tree_shown(offered: bool, label: Seq<char>, q: Seq<char>) -> bool {
    offered && (q.len() == 0 || contains_seq(label, q) || contains_seq("uncommitted"@, q) || contains_seq("working"@, q)
        || contains_seq("未コミット"@, q))
}

/// What Enter in the search field picks: the first row shown.
#[derive(Clone, Copy, Debug, PartialEq, Eq, Structural)]
pub enum PickerPick {
    WorkingTree,
    Branch(usize),
    Commit(usize),
    Tag(usize),
}

/// The rows a search of the picker shows, by position in the lists it was
/// given, and the row Enter picks.
#[derive(Clone, Debug, PartialEq, Eq)]
pub struct PickerRows {
    pub working_tree: bool,
    pub branches: Vec<usize>,
    pub commits: Vec<usize>,
    pub leftover_tags: Vec<usize>,
    pub first: Option<PickerPick>,
}

/// The first row shown: the uncommitted changes, then the branches, the
/// commits and the tags on earlier commits.
pub open spec fn first_pick(wt: bool, bs: Seq<usize>, cs: Seq<usize>, ts: Seq<usize>) -> Option<PickerPick> {
    if wt {
        Some(PickerPick::WorkingTree)
    } else if bs.len() > 0 {
        Some(PickerPick::Branch(bs[0]))
    } else if cs.len() > 0 {
        Some(PickerPick::Commit(cs[0]))
    } else if ts.len() > 0 {
        Some(PickerPick::Tag(ts[0]))
    } else {
        None
    }
}

fn spaced_names_exec(tags: &Vec<TagInfo>, slots: &Vec<Option<usize>>, i: usize) -> (r: Vec<char>)
    requires
        slots@.len() == tags@.len(),
    ensures
        r@ == spaced_names(row_tag_names(tags_view(tags@), slots@, i)),
{
    let ghost tv = tags_view(tags@);
    let mut r: Vec<char> = Vec::new();
    let mut k: usize = 0;
    assert(tv.take(0) =~= Seq::<TagInfoV>::empty());
    while k < tags.len()
        invariant
            k <= tags@.len(),
            slots@.len() == tags@.len(),
            tv == tags_view(tags@),
            r@ == spaced_names(row_tag_names(tv.take(k as int), slots@.take(k as int), i)),
        decreases tags.len() - k,
    {
        proof {
            assert(tv.take(k + 1).drop_last() =~= tv.take(k as int));
            assert(slots@.take(k + 1).drop_last() =~= slots@.take(k as int));
            assert(tv.take(k + 1).last() == tv[k as int]);
            assert(slots@.take(k + 1).last() == slots@[k as int]);
        }
        if slots[k] == Some(i) {
            let ghost names = row_tag_names(tv.take(k as int), slots@.take(k as int), i);
            let mut sp = Vec::new();
            sp.push(' ');
            proof {
                reveal_strlit(" ");
                assert(sp@ =~= " "@);
                assert(names.push(tv[k as int].name).drop_last() =~= names);
            }
            r = concat(&concat(&r, &sp), &chars_of(tags[k].name.as_str()));
        }
        k = k + 1;
    }
    assert(tv.take(tags@.len() as int) =~= tv);
    assert(slots@.take(tags@.len() as int) =~= slots@);
    r
}

fn haystack_exec(c: &CommitSummary, tags: &Vec<TagInfo>, slots: &Vec<Option<usize>>, i: usize) -> (r: Vec<char>)
    requires
        slots@.len() == tags@.len(),
    ensures
        r@ == commit_haystack(c@, row_tag_names(tags_view(tags@), slots@, i)),
{
    let mut sp = Vec::new();
    sp.push(' ');
    proof {
        reveal_strlit(" ");
        assert(sp@ =~= " "@);
    }
    let a = concat(&concat(&chars_of(c.hash.as_str()), &sp), &chars_of(c.date.as_str()));
    let b = concat(&concat(&a, &sp), &chars_of(c.author.as_str()));
    let d = concat(&concat(&b, &sp), &chars_of(c.message.as_str()));
    concat(&d, &spaced_names_exec(tags, slots, i))
}

/// The rows of the picker for a search, given everything lower-cased: the
/// commits' fields, the tags' names and messages, the branch names, the
/// query and the label of the uncommitted changes; `slots` gives the commit
/// each tag sits on (see `tag_slots`, taken on the hashes as listed).
pub fn picker_rows_lowered(
    commits: &Vec<CommitSummary>,
    tags: &Vec<TagInfo>,
    slots: &Vec<Option<usize>>,
    branch_names: &Vec<String>,
    query: &str,
    working_label: &str,
    include_working_tree: bool,
) -> (r: PickerRows)
    requires
        slots@.len() == tags@.len(),
    ensures
        r.working_tree == working_tree_shown(include_working_tree, working_label@, query@),
        r.branches@ == shown_branches(crate::search::strings_view(branch_names@), query@),
        r.commits@ == shown_commits(commits_view(commits@), tags_view(tags@), slots@, query@, commits@.len()),
        r.leftover_tags@ == shown_leftover_tags(tags_view(tags@), slots@, query@, tags@.len()),
        r.first == first_pick(r.working_tree, r.branches@, r.commits@, r.leftover_tags@),
{
    let q = chars_of(query);
    let wt = include_working_tree && (q.len() == 0 || contains_exec(&chars_of(working_label), &q)
        || contains_exec(&chars_of("uncommitted"), &q) || contains_exec(&chars_of("working"), &q)
        || contains_exec(&chars_of("未コミット"), &q));
    // Branches.
    let bs = if q.len() == 0 {
        let n: usize = if branch_names.len() < 8 { branch_names.len() } else { 8 };
        let mut v: Vec<usize> = Vec::new();
        let mut k: usize = 0;
        while k < n
            invariant
                k <= n,
                v@ == Seq::new(k as nat, |i: int| i as usize),
            decreases n - k,
        {
            v.push(k);
            k = k + 1;
            assert(v@ =~= Seq::new(k as nat, |i: int| i as usize));
        }
        v
    } else {
        crate::search::positions_containing(branch_names, query)
    };
    // Commits.
    let ghost cv = commits_view(commits@);
    let ghost tv = tags_view(tags@);
    let mut cs: Vec<usize> = Vec::new();
    let mut i: usize = 0;
    while i < commits.len()
        invariant
            i <= commits@.len(),
            slots@.len() == tags@.len(),
            cv == commits_view(commits@),
            tv == tags_view(tags@),
            q@ == query@,
            cs@ == shown_commits(cv, tv, slots@, q@, i as nat),
        decreases commits.len() - i,
    {
        if q.len() == 0 {
            cs.push(i);
        } else {
            let hay = haystack_exec(&commits[i], tags, slots, i);
            assert(commits@[i as int]@ == cv[i as int]);
            if contains_exec(&hay, &q) {
                cs.push(i);
            }
        }
        i = i + 1;
    }
    // Tags on no listed commit.
    let mut ts: Vec<usize> = Vec::new();
    let mut k: usize = 0;
    while k < tags.len()
        invariant
            k <= tags@.len(),
            slots@.len() == tags@.len(),
            tv == tags_view(tags@),
            q@ == query@,
            ts@ == shown_leftover_tags(tv, slots@, q@, k as nat),
        decreases tags.len() - k,
    {
        assert(tv[k as int].name == tags@[k as int].name@ && tv[k as int].message == tags@[k as int].message@);
        if slots[k].is_none() && (q.len() == 0 || contains_exec(&chars_of(tags[k].name.as_str()), &q)
            || contains_exec(&chars_of(tags[k].message.as_str()), &q))
        {
            ts.push(k);
        }
        k = k + 1;
    }
    let first = if wt {
        Some(PickerPick::WorkingTree)
    } else if bs.len() > 0 {
        Some(PickerPick::Branch(bs[0]))
    } else if cs.len() > 0 {
        Some(PickerPick::Commit(cs[0]))
    } else if ts.len() > 0 {
        Some(PickerPick::Tag(ts[0]))
    } else {
        None
    };
    PickerRows { working_tree: wt, branches: bs, commits: cs, leftover_tags: ts, first }
}


/// A commit with its hash, date, author and message lower-cased.
pub open spec fn lower_commit(c: CommitSummaryV) -> CommitSummaryV {
    CommitSummaryV { hash: lowercase(c.hash), author: lowercase(c.author), date: lowercase(c.date), message: lowercase(c.message) }
}

/// A tag with its name and message lower-cased.
pub open spec fn lower_tag(t: TagInfoV) -> TagInfoV {
    TagInfoV { name: lowercase(t.name), date: t.date, message: lowercase(t.message), hash: t.hash }
}

fn lowered_commits(commits: &Vec<CommitSummary>) -> (r: Vec<CommitSummary>)
    ensures
        commits_view(r@) == commits_view(commits@).map_values(|c: CommitSummaryV| lower_commit(c)),
{
    let mut r: Vec<CommitSummary> = Vec::new();
    let mut i: usize = 0;
    while i < commits.len()
        invariant
            i <= commits@.len(),
            commits_view(r@) == commits_view(commits@).take(i as int).map_values(|c: CommitSummaryV| lower_commit(c)),
        decreases commits.len() - i,
    {
        let c = &commits[i];
        let l = CommitSummary {
            hash: to_lowercase(c.hash.as_str()),
            author: to_lowercase(c.author.as_str()),
            date: to_lowercase(c.date.as_str()),
            message: to_lowercase(c.message.as_str()),
        };
        let ghost prev = r@;
        r.push(l);
        assert(commits_view(r@) =~= commits_view(commits@).take(i + 1).map_values(|c: CommitSummaryV| lower_commit(c))) by {
            assert(commits_view(r@) =~= commits_view(prev).push(l@));
            assert(commits_view(commits@)[i as int] == commits@[i as int]@);
        }
        i = i + 1;
    }
    assert(commits_view(commits@).take(commits@.len() as int) =~= commits_view(commits@));
    r
}

fn lowered_tags(tags: &Vec<TagInfo>) -> (r: Vec<TagInfo>)
    ensures
        tags_view(r@) == tags_view(tags@).map_values(|t: TagInfoV| lower_tag(t)),
{
    let mut r: Vec<TagInfo> = Vec::new();
    let mut i: usize = 0;
    while i < tags.len()
        invariant
            i <= tags@.len(),
            tags_view(r@) == tags_view(tags@).take(i as int).map_values(|t: TagInfoV| lower_tag(t)),
        decreases tags.len() - i,
    {
        let tg = &tags[i];
        let l = TagInfo {
            name: to_lowercase(tg.name.as_str()),
            date: lit(tg.date.as_str()),
            message: to_lowercase(tg.message.as_str()),
            hash: lit(tg.hash.as_str()),
        };
        let ghost prev = r@;
        r.push(l);
        assert(tags_view(r@) =~= tags_view(tags@).take(i + 1).map_values(|t: TagInfoV| lower_tag(t))) by {
            assert(tags_view(r@) =~= tags_view(prev).push(l@));
            assert(tags_view(tags@)[i as int] == tags@[i as int]@);
        }
        i = i + 1;
    }
    assert(tags_view(tags@).take(tags@.len() as int) =~= tags_view(tags@));
    r
}

fn lowered_branch_names(branches: &Vec<BranchInfo>) -> (r: Vec<String>)
    ensures
        crate::search::strings_view(r@) == branches_view(branches@).map_values(|b: crate::git::BranchInfoV| lowercase(b.name)),
{
    let mut r: Vec<String> = Vec::new();
    let mut i: usize = 0;
    while i < branches.len()
        invariant
            i <= branches@.len(),
            crate::search::strings_view(r@) == branches_view(branches@).take(i as int).map_values(
                |b: crate::git::BranchInfoV| lowercase(b.name),
            ),
        decreases branches.len() - i,
    {
        let l = to_lowercase(branches[i].name.as_str());
        let ghost prev = r@;
        r.push(l);
        assert(crate::search::strings_view(r@) =~= branches_view(branches@).take(i + 1).map_values(
            |b: crate::git::BranchInfoV| lowercase(b.name),
        )) by {
            assert(crate::search::strings_view(r@) =~= crate::search::strings_view(prev).push(l@));
            assert(branches_view(branches@)[i as int] == branch_view(branches@[i as int]));
        }
        i = i + 1;
    }
    assert(branches_view(branches@).take(branches@.len() as int) =~= branches_view(branches@));
    r
}

/// The rows of the picker for a search, ignoring case (see
/// `picker_rows_lowered`); the row of the uncommitted changes is offered
/// when `include_working_tree` holds.
pub fn picker_rows(
    commits: &Vec<CommitSummary>,
    tags: &Vec<TagInfo>,
    branches: &Vec<BranchInfo>,
    query: &str,
    include_working_tree: bool,
    lang: Language,
) -> (r: PickerRows)
    ensures
        r.working_tree == working_tree_shown(
            include_working_tree,
            lowercase(translate(lang, "uncommitted_changes_working"@)),
            lowercase(query@),
        ),
        r.branches@ == shown_branches(
            branches_view(branches@).map_values(|b: crate::git::BranchInfoV| lowercase(b.name)),
            lowercase(query@),
        ),
        r.commits@ == shown_commits(
            commits_view(commits@).map_values(|c: CommitSummaryV| lower_commit(c)),
            tags_view(tags@).map_values(|t: TagInfoV| lower_tag(t)),
            tag_slots_spec(commits_view(commits@), tags_view(tags@)),
            lowercase(query@),
            commits@.len(),
        ),
        r.leftover_tags@ == shown_leftover_tags(
            tags_view(tags@).map_values(|t: TagInfoV| lower_tag(t)),
            tag_slots_spec(commits_view(commits@), tags_view(tags@)),
            lowercase(query@),
            tags@.len(),
        ),
        r.first == first_pick(r.working_tree, r.branches@, r.commits@, r.leftover_tags@),
{
    let slots = tag_slots(commits, tags);
    let lc = lowered_commits(commits);
    let lt = lowered_tags(tags);
    let lb = lowered_branch_names(branches);
    let q = to_lowercase(query);
    let label = to_lowercase(t(lang, "uncommitted_changes_working"));
    proof {
        assert(commits_view(lc@).len() == commits@.len());
        assert(tags_view(lt@).len() == tags@.len());
    }
    picker_rows_lowered(&lc, &lt, &slots, &lb, q.as_str(), label.as_str(), include_working_tree)
}

/// What a picked row stands for: the uncommitted changes, a branch name, a
/// commit hash or a tag name.
pub open spec fn pick_ref(p: PickerPick, cs: Seq<CommitSummaryV>, tags: Seq<TagInfoV>, bs: Seq<crate::git::BranchInfoV>) -> Seq<char> {
    match p {
        PickerPick::WorkingTree => "WORKING_TREE"@,
        PickerPick::Branch(i) => bs[i as int].name,
        PickerPick::Commit(i) => cs[i as int].hash,
        PickerPick::Tag(i) => tags[i as int].name,
    }
}

/// `pick_ref` of a row.
pub fn picked_ref(p: PickerPick, commits: &Vec<CommitSummary>, tags: &Vec<TagInfo>, branches: &Vec<BranchInfo>) -> (r: String)
    requires
        p matches PickerPick::Branch(i) ==> i < branches@.len(),
        p matches PickerPick::Commit(i) ==> i < commits@.len(),
        p matches PickerPick::Tag(i) ==> i < tags@.len(),
    ensures
        r@ == pick_ref(p, commits_view(commits@), tags_view(tags@), branches_view(branches@)),
{
    match p {
        PickerPick::WorkingTree => lit("WORKING_TREE"),
        PickerPick::Branch(i) => lit(branches[i].name.as_str()),
        PickerPick::Commit(i) => lit(commits[i].hash.as_str()),
        PickerPick::Tag(i) => lit(tags[i].name.as_str()),
    }
}

/// Whether commit `i` is the current choice `current`: their hashes are
/// related (one begins with the other) or a tag on the commit has that name.
pub open spec fn commit_is_current_spec(c: CommitSummaryV, tags: Seq<TagInfoV>, slots: Seq<Option<usize>>, i: usize, current: Seq<char>) -> bool {
    hash_related(c.hash, current) || row_tag_names(tags, slots, i).contains(current)
}

/// `commit_is_current_spec` of commit `i` (its tags as `slots` places them).
pub fn commit_is_current(commits: &Vec<CommitSummary>, i: usize, tags: &Vec<TagInfo>, slots: &Vec<Option<usize>>, current: &str) -> (r: bool)
    requires
        i < commits@.len(),
        slots@.len() == tags@.len(),
    ensures
        r == commit_is_current_spec(commits@[i as int]@, tags_view(tags@), slots@, i, current@),
{
    let h = chars_of(commits[i].hash.as_str());
    let cur = chars_of(current);
    if starts_with_exec(&h, &cur) || starts_with_exec(&cur, &h) {
        return true;
    }
    let ghost tv = tags_view(tags@);
    let mut k: usize = 0;
    assert(tv.take(0) =~= Seq::<TagInfoV>::empty());
    while k < tags.len()
        invariant
            k <= tags@.len(),
            slots@.len() == tags@.len(),
            tv == tags_view(tags@),
            cur@ == current@,
            !row_tag_names(tv.take(k as int), slots@.take(k as int), i).contains(current@),
        decreases tags.len() - k,
    {
        proof {
            assert(tv.take(k + 1).drop_last() =~= tv.take(k as int));
            assert(slots@.take(k + 1).drop_last() =~= slots@.take(k as int));
            assert(tv.take(k + 1).last() == tv[k as int]);
            assert(slots@.take(k + 1).last() == slots@[k as int]);
            assert(tv[k as int].name == tags@[k as int].name@);
        }
        if slots[k] == Some(i) && seq_eq(&chars_of(tags[k].name.as_str()), &cur) {
            let ghost names = row_tag_names(tv.take(k as int), slots@.take(k as int), i);
            assert(names.push(current@)[names.len() as int] == current@);
            assert(row_tag_names(tv, slots@, i).contains(current@)) by {
                lemma_row_tag_names_prefix(tv, slots@, i, k as int + 1);
            }
            return true;
        }
        k = k + 1;
    }
    assert(tv.take(tags@.len() as int) =~= tv);
    assert(slots@.take(tags@.len() as int) =~= slots@);
    false
}

proof fn lemma_row_tag_names_prefix(tags: Seq<TagInfoV>, slots: Seq<Option<usize>>, i: usize, k: int)
    requires
        0 <= k <= tags.len(),
        slots.len() == tags.len(),
    ensures
        forall|x: Seq<char>| row_tag_names(tags.take(k), slots.take(k), i).contains(x) ==> row_tag_names(tags, slots, i).contains(x),
    decreases tags.len() - k,
{
    if k == tags.len() {
        assert(tags.take(k) =~= tags);
        assert(slots.take(k) =~= slots);
    } else {
        lemma_row_tag_names_prefix(tags, slots, i, k + 1);
        assert(tags.take(k + 1).drop_last() =~= tags.take(k));
        assert(slots.take(k + 1).drop_last() =~= slots.take(k));
        let prev = row_tag_names(tags.take(k), slots.take(k), i);
        assert forall|x: Seq<char>| prev.contains(x) implies row_tag_names(tags.take(k + 1), slots.take(k + 1), i).contains(x) by {
            let j = choose|j: int| 0 <= j < prev.len() && prev[j] == x;
            if slots.take(k + 1).last() == Some(i) {
                assert(prev.push(tags.take(k + 1).last().name)[j] == x);
            }
        }
    }
}

/// The hint beside the branch heading when the empty search shows only
/// the most recent branches: the number of branches, and that the search
/// filters them.
pub open spec fn branch_hint(lang: Language, query_empty: bool, n: nat) -> Option<Seq<char>> {
    if query_empty && n > 8 {
        Some(match lang {
            Language::English => "(Total "@ + crate::text::decimal(n) + " — filter by search)"@,
            Language::Japanese => "（全"@ + crate::text::decimal(n) + "件 — 検索で絞り込み）"@,
        })
    } else {
        None
    }
}

/// `branch_hint`.
pub fn branch_filter_hint(lang: Language, query_empty: bool, n: usize) -> (r: Option<String>)
    ensures
        match branch_hint(lang, query_empty, n as nat) {
            Some(m) => r matches Some(s) && s@ == m,
            None => r is None,
        },
{
    if !(query_empty && n > 8) {
        return None;
    }
    let d = crate::text::decimal_chars(n as u64);
    let (pre, post) = match lang {
        Language::English => (chars_of("(Total "), chars_of(" — filter by search)")),
        Language::Japanese => (chars_of("（全"), chars_of("件 — 検索で絞り込み）")),
    };
    Some(crate::text::string_of(&concat(&concat(&pre, &d), &post)))
}


/// The branches the branch list shows for its filter text, by position:
/// those whose lower-cased name contains the trimmed, lower-cased filter
/// (all of them for a blank filter).
pub fn branch_list_rows(branches: &Vec<BranchInfo>, filter: &str) -> (r: Vec<usize>)
    ensures
        r@ == crate::search::matching_indices(
            branches_view(branches@).map_values(|b: crate::git::BranchInfoV| lowercase(b.name)),
            lowercase(crate::text::trim(filter@)),
        ),
{
    let names = lowered_branch_names(branches);
    let tr = crate::text::string_of(&crate::text::trim_vec(&chars_of(filter)));
    let q = to_lowercase(tr.as_str());
    crate::search::positions_containing(&names, q.as_str())
}


// ---------------------------------------------------------------------------
// Choosing a base and a target

/// A marker click on a row named `name`: it chooses the row, or clears the
/// choice when the row was already chosen.
pub open spec fn toggled(current: Option<Seq<char>>, name: Seq<char>) -> Option<Seq<char>> {
    if current == Some(name) {
        None
    } else {
        Some(name)
    }
}

/// `toggled`.
pub fn toggle_marker(current: &Option<String>, name: &str) -> (r: Option<String>)
    ensures
        crate::diff::opt_str_view(r) == toggled(crate::diff::opt_str_view(*current), name@),
{
    match current {
        Some(c) => if crate::text::str_eq(c.as_str(), name) {
            None
        } else {
            Some(lit(name))
        },
        None => Some(lit(name)),
    }
}

/// Two clicks on the marker of the same row leave no choice, whatever was
/// chosen before; a click on a row that is not chosen chooses it.
pub proof fn lemma_toggle_twice(current: Option<Seq<char>>, name: Seq<char>)
    ensures
        toggled(toggled(current, name), name) == (if current == Some(name) { Some(name) } else { None::<Seq<char>> }),
        current != Some(name) ==> toggled(current, name) == Some(name),
{
}

/// The summary beside the compare button: base and target, each cut to 16
/// characters (see `ellipsized`) or "?" when not chosen; none while neither
/// is chosen.
pub open spec fn compare_summary(base: Option<Seq<char>>, target: Option<Seq<char>>) -> Option<(Seq<char>, Seq<char>)> {
    if base is None && target is None {
        None
    } else {
        Some((
            match base {
                Some(b) => crate::view::ellipsized(b, 16),
                None => "?"@,
            },
            match target {
                Some(t) => crate::view::ellipsized(t, 16),
                None => "?"@,
            },
        ))
    }
}

fn end_label(s: &Option<String>) -> (r: String)
    ensures
        r@ == match crate::diff::opt_str_view(*s) {
            Some(b) => crate::view::ellipsized(b, 16),
            None => "?"@,
        },
{
    match s {
        Some(b) => crate::view::short(b.as_str(), 16),
        None => lit("?"),
    }
}

/// `compare_summary`; the comparison can run when both are chosen.
pub fn compare_labels(base: &Option<String>, target: &Option<String>) -> (r: Option<(String, String)>)
    ensures
        match compare_summary(crate::diff::opt_str_view(*base), crate::diff::opt_str_view(*target)) {
            Some((b, t)) => r matches Some((x, y)) && x@ == b && y@ == t,
            None => r is None,
        },
{
    if base.is_none() && target.is_none() {
        None
    } else {
        Some((end_label(base), end_label(target)))
    }
}

} // verus!
