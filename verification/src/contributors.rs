//! Who committed: the author lines of the log grouped by person, with the
//! names and addresses of registered members folded into one identity.
use vstd::prelude::*;
use crate::config::{Member, MemberV, members_view};
use crate::git::{field_sep, field_sep_exec, format_timestamp, i64_or_zero, lit, stamp_text, strings_view};
use crate::sort::{lemma_sort_desc_all, lemma_sort_desc_map, lemma_sort_desc_pairwise, lemma_sort_desc_sorted, lemma_sort_desc_sum, lemma_sum_by_map, lemma_sum_by_update, pairwise, sort_desc, stable_sort_desc, sum_by};
use crate::text::{chars_of, filter_map, lemma_filter_map_all, lemma_filter_map_take, lines_seq, lines_str, parse_i64, parse_i64_exec, seq_eq, split_exec, split_seq, string_of, trim, trim_vec, vviews};

verus! {

// ---------------------------------------------------------------------------
// ASCII case-insensitive comparison

/// A character's code with `A`..`Z` folded onto `a`..`z`.
pub open spec fn folded(c: char) -> int {
    let n = c as int;
    if 65 <= n && n <= 90 {
        n + 32
    } else {
        n
    }
}

/// `str::eq_ignore_ascii_case`: equal after folding ASCII capitals.
pub open spec fn eq_ignore_ascii_case(a: Seq<char>, b: Seq<char>) -> bool {
    a.len() == b.len() && forall|i: int| 0 <= i < a.len() ==> #[trigger] folded(a[i]) == folded(b[i])
}

fn folded_exec(c: char) -> (r: u32)
    ensures
        r == folded(c),
{
    let n = c as u32;
    if 65 <= n && n <= 90 {
        n + 32
    } else {
        n
    }
}

/// Whether two character sequences are equal up to ASCII case.
pub fn eq_ignore_ascii_case_exec(a: &Vec<char>, b: &Vec<char>) -> (r: bool)
    ensures
        r == eq_ignore_ascii_case(a@, b@),
{
    if a.len() != b.len() {
        return false;
    }
    let mut i: usize = 0;
    while i < a.len()
        invariant
            a@.len() == b@.len(),
            i <= a@.len(),
            forall|j: int| 0 <= j < i ==> #[trigger] folded(a@[j]) == folded(b@[j]),
        decreases a.len() - i,
    {
        if folded_exec(a[i]) != folded_exec(b[i]) {
            return false;
        }
        i = i + 1;
    }
    true
}

// ---------------------------------------------------------------------------
// Members

/// Whether member `m` stands for the author `name` with address `email`:
/// its canonical name is the name, or one of its aliases is the name or the
/// address, ignoring ASCII case.
pub open spec fn member_matches(m: MemberV, name: Seq<char>, email: Seq<char>) -> bool {
    eq_ignore_ascii_case(m.canonical_name, name) || exists|k: int|
        0 <= k < m.aliases.len() && (eq_ignore_ascii_case(#[trigger] m.aliases[k], name)
            || eq_ignore_ascii_case(m.aliases[k], email))
}

/// The name an author line counts under: the canonical name of the first
/// member from index `i` on that stands for it, else the name itself.
pub open spec fn resolve_from(ms: Seq<MemberV>, name: Seq<char>, email: Seq<char>, i: int) -> Seq<char>
    decreases ms.len() - i,
{
    if i < 0 || i >= ms.len() {
        name
    } else if member_matches(ms[i], name, email) {
        ms[i].canonical_name
    } else {
        resolve_from(ms, name, email, i + 1)
    }
}

pub open spec fn resolve_name(ms: Seq<MemberV>, name: Seq<char>, email: Seq<char>) -> Seq<char> {
    resolve_from(ms, name, email, 0)
}

/// Whether the first member whose canonical name is exactly `name`, from
/// index `i` on, exists, and whether it is active.
pub open spec fn status_from(ms: Seq<MemberV>, name: Seq<char>, i: int) -> (bool, bool)
    decreases ms.len() - i,
{
    if i < 0 || i >= ms.len() {
        (false, false)
    } else if ms[i].canonical_name == name {
        (true, ms[i].is_active)
    } else {
        status_from(ms, name, i + 1)
    }
}

pub open spec fn member_status(ms: Seq<MemberV>, name: Seq<char>) -> (bool, bool) {
    status_from(ms, name, 0)
}

fn member_matches_exec(m: &Member, name: &Vec<char>, email: &Vec<char>) -> (r: bool)
    ensures
        r == member_matches(m@, name@, email@),
{
    let canon = chars_of(m.canonical_name.as_str());
    if eq_ignore_ascii_case_exec(&canon, name) {
        return true;
    }
    let ghost al = m@.aliases;
    let mut k: usize = 0;
    while k < m.aliases.len()
        invariant
            k <= m.aliases@.len(),
            al == m@.aliases,
            al.len() == m.aliases@.len(),
            forall|j: int| 0 <= j < k ==> !(eq_ignore_ascii_case(#[trigger] al[j], name@)
                || eq_ignore_ascii_case(al[j], email@)),
        decreases m.aliases.len() - k,
    {
        let a = chars_of(m.aliases[k].as_str());
        assert(al[k as int] == m.aliases@[k as int]@);
        if eq_ignore_ascii_case_exec(&a, name) || eq_ignore_ascii_case_exec(&a, email) {
            return true;
        }
        k = k + 1;
    }
    false
}

/// The name an author line counts under (see `resolve_name`).
pub fn resolve_author(members: &[Member], name: &Vec<char>, email: &Vec<char>) -> (r: Vec<char>)
    ensures
        r@ == resolve_name(members_view(members@), name@, email@),
{
    let ghost ms = members_view(members@);
    let mut i: usize = 0;
    while i < members.len()
        invariant
            i <= members@.len(),
            ms == members_view(members@),
            ms.len() == members@.len(),
            resolve_from(ms, name@, email@, 0) == resolve_from(ms, name@, email@, i as int),
        decreases members.len() - i,
    {
        assert(ms[i as int] == members@[i as int]@);
        if member_matches_exec(&members[i], name, email) {
            return chars_of(members[i].canonical_name.as_str());
        }
        i = i + 1;
    }
    name.clone()
}

/// Whether `name` is a member's canonical name, and whether that member is
/// active (see `member_status`).
pub fn member_status_exec(members: &[Member], name: &Vec<char>) -> (r: (bool, bool))
    ensures
        r == member_status(members_view(members@), name@),
{
    let ghost ms = members_view(members@);
    let mut i: usize = 0;
    while i < members.len()
        invariant
            i <= members@.len(),
            ms == members_view(members@),
            ms.len() == members@.len(),
            status_from(ms, name@, 0) == status_from(ms, name@, i as int),
        decreases members.len() - i,
    {
        assert(ms[i as int] == members@[i as int]@);
        let canon = chars_of(members[i].canonical_name.as_str());
        if seq_eq(&canon, name) {
            return (true, members[i].is_active);
        }
        i = i + 1;
    }
    (false, false)
}


// ---------------------------------------------------------------------------
// Author lines

/// The author name, address and time of a `name|||email|||time` line, each
/// trimmed, the time 0 where it does not parse; none for a line with fewer
/// than three fields.
pub open spec fn author_of_line(line: Seq<char>) -> Option<(Seq<char>, Seq<char>, i64)> {
    let p = split_seq(line, field_sep());
    if p.len() < 3 {
        None
    } else {
        Some((trim(p[0]), trim(p[1]), i64_or_zero(parse_i64(trim(p[2])))))
    }
}

/// The author lines of a log listing, in order.
pub open spec fn author_lines(log: Seq<char>) -> Seq<(Seq<char>, Seq<char>, i64)> {
    filter_map(lines_seq(log), |l: Seq<char>| author_of_line(l))
}

pub open spec fn authors_view(s: Seq<(Vec<char>, Vec<char>, i64)>) -> Seq<(Seq<char>, Seq<char>, i64)> {
    s.map_values(|x: (Vec<char>, Vec<char>, i64)| (x.0@, x.1@, x.2))
}

fn parse_author_lines(log: &str) -> (r: Vec<(Vec<char>, Vec<char>, i64)>)
    ensures
        authors_view(r@) == author_lines(log@),
{
    let lines = lines_str(log);
    let sep = field_sep_exec();
    let ghost ls = vviews(lines@);
    let ghost f = |l: Seq<char>| author_of_line(l);
    let mut out: Vec<(Vec<char>, Vec<char>, i64)> = Vec::new();
    let mut i: usize = 0;
    while i < lines.len()
        invariant
            i <= lines.len(),
            ls == vviews(lines@),
            sep@ == field_sep(),
            f == (|l: Seq<char>| author_of_line(l)),
            authors_view(out@) == filter_map(ls.take(i as int), f),
        decreases lines.len() - i,
    {
        proof {
            lemma_filter_map_take(ls, f, i as int);
            assert(ls[i as int] == lines@[i as int]@);
        }
        let parts = split_exec(&lines[i], &sep);
        if parts.len() >= 3 {
            proof {
                assert(vviews(parts@)[0] == parts@[0]@);
                assert(vviews(parts@)[1] == parts@[1]@);
                assert(vviews(parts@)[2] == parts@[2]@);
            }
            let name = trim_vec(&parts[0]);
            let email = trim_vec(&parts[1]);
            let ts = match parse_i64_exec(&trim_vec(&parts[2])) {
                Some(v) => v,
                None => 0,
            };
            let ghost prev = out@;
            out.push((name, email, ts));
            proof {
                let ghost rec = author_of_line(ls[i as int])->0;
                assert(authors_view(out@) =~= authors_view(prev).push(rec));
            }
        }
        i = i + 1;
    }
    proof {
        lemma_filter_map_all(ls, f);
    }
    out
}

// ---------------------------------------------------------------------------
// Grouping

/// What is gathered of one person: the name, the number of commits, the
/// earliest and latest commit time, and the distinct non-empty addresses in
/// the order they first appear.
pub struct GroupV {
    pub name: Seq<char>,
    pub count: nat,
    pub first: int,
    pub last: int,
    pub emails: Seq<Seq<char>>,
}

pub open spec fn add_email(es: Seq<Seq<char>>, e: Seq<char>) -> Seq<Seq<char>> {
    if e.len() > 0 && !es.contains(e) {
        es.push(e)
    } else {
        es
    }
}

pub open spec fn new_group(name: Seq<char>, email: Seq<char>, ts: int) -> GroupV {
    GroupV { name, count: 1, first: ts, last: ts, emails: add_email(Seq::empty(), email) }
}

pub open spec fn bump_group(g: GroupV, email: Seq<char>, ts: int) -> GroupV {
    GroupV {
        name: g.name,
        count: g.count + 1,
        first: if ts < g.first { ts } else { g.first },
        last: if ts > g.last { ts } else { g.last },
        emails: add_email(g.emails, email),
    }
}

/// No two groups share a name.
pub open spec fn distinct_names(gs: Seq<GroupV>) -> bool {
    forall|i: int, j: int| 0 <= i < j < gs.len() ==> #[trigger] gs[i].name != #[trigger] gs[j].name
}

/// One commit of `name` counted in: its group is updated, or a new group
/// is added at the end.
pub open spec fn add_commit(gs: Seq<GroupV>, name: Seq<char>, email: Seq<char>, ts: int) -> Seq<GroupV> {
    if exists|k: int| 0 <= k < gs.len() && (#[trigger] gs[k]).name == name {
        let k = choose|k: int| 0 <= k < gs.len() && (#[trigger] gs[k]).name == name;
        gs.update(k, bump_group(gs[k], email, ts))
    } else {
        gs.push(new_group(name, email, ts))
    }
}

/// The groups of a sequence of author lines, each line counted under the
/// name it resolves to; groups in the order their first line appears.
pub open spec fn groups_of(recs: Seq<(Seq<char>, Seq<char>, i64)>, ms: Seq<MemberV>) -> Seq<GroupV>
    decreases recs.len(),
{
    if recs.len() == 0 {
        Seq::empty()
    } else {
        let r = recs.last();
        add_commit(groups_of(recs.drop_last(), ms), resolve_name(ms, r.0, r.1), r.1, r.2 as int)
    }
}

proof fn lemma_add_commit_distinct(gs: Seq<GroupV>, name: Seq<char>, email: Seq<char>, ts: int)
    requires
        distinct_names(gs),
    ensures
        distinct_names(add_commit(gs, name, email, ts)),
{
    let r = add_commit(gs, name, email, ts);
    if exists|k: int| 0 <= k < gs.len() && (#[trigger] gs[k]).name == name {
        let k = choose|k: int| 0 <= k < gs.len() && (#[trigger] gs[k]).name == name;
        assert forall|i: int, j: int| 0 <= i < j < r.len() implies #[trigger] r[i].name != #[trigger] r[j].name by {
            assert(r[i].name == gs[i].name);
            assert(r[j].name == gs[j].name);
        }
    } else {
        assert forall|i: int, j: int| 0 <= i < j < r.len() implies #[trigger] r[i].name != #[trigger] r[j].name by {
            if j == gs.len() {
                assert(r[i] == gs[i]);
            } else {
                assert(r[i] == gs[i]);
                assert(r[j] == gs[j]);
            }
        }
    }
}

proof fn lemma_groups_distinct(recs: Seq<(Seq<char>, Seq<char>, i64)>, ms: Seq<MemberV>)
    ensures
        distinct_names(groups_of(recs, ms)),
    decreases recs.len(),
{
    if recs.len() > 0 {
        lemma_groups_distinct(recs.drop_last(), ms);
        let r = recs.last();
        lemma_add_commit_distinct(groups_of(recs.drop_last(), ms), resolve_name(ms, r.0, r.1), r.1, r.2 as int);
    }
}

/// A group as the library builds it.
struct Group {
    name: Vec<char>,
    count: usize,
    first: i64,
    last: i64,
    emails: Vec<Vec<char>>,
}

impl View for Group {
    type V = GroupV;

    closed spec fn view(&self) -> GroupV {
        GroupV {
            name: self.name@,
            count: self.count as nat,
            first: self.first as int,
            last: self.last as int,
            emails: vviews(self.emails@),
        }
    }
}

spec fn groups_view(s: Seq<Group>) -> Seq<GroupV> {
    s.map_values(|g: Group| g@)
}

fn add_email_exec(es: &mut Vec<Vec<char>>, e: Vec<char>)
    ensures
        vviews(final(es)@) == add_email(vviews(old(es)@), e@),
{
    if e.len() == 0 {
        return;
    }
    let ghost ev = vviews(es@);
    let mut k: usize = 0;
    while k < es.len()
        invariant
            k <= es@.len(),
            ev == vviews(es@),
            ev.len() == es@.len(),
            forall|j: int| 0 <= j < k ==> ev[j] != e@,
        decreases es.len() - k,
    {
        assert(ev[k as int] == es@[k as int]@);
        if seq_eq(&es[k], &e) {
            assert(ev.contains(e@));
            return;
        }
        k = k + 1;
    }
    assert(!ev.contains(e@));
    es.push(e);
    assert(vviews(es@) =~= ev.push(e@));
}


fn group_commits(recs: &Vec<(Vec<char>, Vec<char>, i64)>, members: &[Member]) -> (gs: Vec<Group>)
    ensures
        groups_view(gs@) == groups_of(authors_view(recs@), members_view(members@)),
{
    let ghost av = authors_view(recs@);
    let ghost ms = members_view(members@);
    let mut gs: Vec<Group> = Vec::new();
    let mut i: usize = 0;
    assert(av.take(0) =~= Seq::<(Seq<char>, Seq<char>, i64)>::empty());
    assert(groups_view(gs@) =~= Seq::<GroupV>::empty());
    while i < recs.len()
        invariant
            i <= recs@.len(),
            av == authors_view(recs@),
            ms == members_view(members@),
            groups_view(gs@) == groups_of(av.take(i as int), ms),
            forall|k: int| 0 <= k < gs@.len() ==> (#[trigger] gs@[k]).count <= i,
        decreases recs.len() - i,
    {
        proof {
            assert(av.take(i + 1).drop_last() =~= av.take(i as int));
            assert(av.take(i + 1).last() == av[i as int]);
            lemma_groups_distinct(av.take(i as int), ms);
        }
        let ghost gv = groups_view(gs@);
        let name = resolve_author(members, &recs[i].0, &recs[i].1);
        let email = recs[i].1.clone();
        let ts = recs[i].2;
        let mut j: usize = 0;
        while j < gs.len()
            invariant
                j <= gs@.len(),
                gv == groups_view(gs@),
                gv.len() == gs@.len(),
                forall|k: int| 0 <= k < j ==> gv[k].name != name@,
            ensures
                j <= gs@.len(),
                gv == groups_view(gs@),
                forall|k: int| 0 <= k < j ==> gv[k].name != name@,
                j < gs@.len() ==> gv[j as int].name == name@,
            decreases gs.len() - j,
        {
            assert(gv[j as int] == gs@[j as int]@);
            if seq_eq(&gs[j].name, &name) {
                break;
            }
            j = j + 1;
        }
        if j < gs.len() {
            assert(gv[j as int] == gs@[j as int]@);
            let ghost prev = gs@;
            let g = gs.remove(j);
            let mut es = g.emails;
            add_email_exec(&mut es, email);
            let ng = Group {
                name: g.name,
                count: g.count + 1,
                first: if ts < g.first { ts } else { g.first },
                last: if ts > g.last { ts } else { g.last },
                emails: es,
            };
            gs.insert(j, ng);
            proof {
                assert(gv[j as int].name == name@);
                let k = choose|k: int| 0 <= k < gv.len() && (#[trigger] gv[k]).name == name@;
                assert(k == j);
                assert(ng@ == bump_group(gv[j as int], recs@[i as int].1@, ts as int));
                assert(gs@ =~= prev.update(j as int, ng));
                assert(groups_view(gs@) =~= gv.update(j as int, ng@));
                assert forall|k: int| 0 <= k < gs@.len() implies (#[trigger] gs@[k]).count <= i + 1 by {
                    if k != j {
                        assert(gs@[k] == prev[k]);
                    }
                }
            }
        } else {
            let mut es: Vec<Vec<char>> = Vec::new();
            add_email_exec(&mut es, email);
            let ng = Group { name, count: 1, first: ts, last: ts, emails: es };
            let ghost prev = gs@;
            gs.push(ng);
            proof {
                assert(vviews(Seq::<Vec<char>>::empty()) =~= Seq::<Seq<char>>::empty());
                assert(ng@ == new_group(name@, recs@[i as int].1@, ts as int));
                assert(groups_view(gs@) =~= gv.push(ng@));
                assert forall|k: int| 0 <= k < gs@.len() implies (#[trigger] gs@[k]).count <= i + 1 by {
                    if k < prev.len() {
                        assert(gs@[k] == prev[k]);
                    }
                }
            }
        }
        i = i + 1;
    }
    assert(av.take(recs.len() as int) =~= av);
    gs
}


// ---------------------------------------------------------------------------
// Contributors

/// The sequences `es` joined with `sep` between neighbours.
pub open spec fn join(es: Seq<Seq<char>>, sep: Seq<char>) -> Seq<char>
    decreases es.len(),
{
    if es.len() == 0 {
        Seq::empty()
    } else if es.len() == 1 {
        es[0]
    } else {
        join(es.drop_last(), sep) + sep + es.last()
    }
}

fn join_exec(es: &Vec<Vec<char>>, sep: &Vec<char>) -> (r: Vec<char>)
    ensures
        r@ == join(vviews(es@), sep@),
{
    let ghost ev = vviews(es@);
    let mut out: Vec<char> = Vec::new();
    let mut i: usize = 0;
    while i < es.len()
        invariant
            i <= es@.len(),
            ev == vviews(es@),
            out@ == join(ev.take(i as int), sep@),
        decreases es.len() - i,
    {
        proof {
            assert(ev.take(i + 1).drop_last() =~= ev.take(i as int));
            assert(ev.take(i + 1).last() == es@[i as int]@);
        }
        if i == 0 {
            out = es[0].clone();
        } else {
            let with_sep = crate::text::concat(&out, sep);
            out = crate::text::concat(&with_sep, &es[i]);
        }
        i = i + 1;
    }
    assert(ev.take(es.len() as int) =~= ev);
    out
}

/// One person's share of the log. `first_commit` and `last_commit` are the
/// local-time texts of `first_timestamp` and `last_timestamp`.
#[derive(Clone, Debug, PartialEq, Eq)]
pub struct Contributor {
    pub name: String,
    pub email: String,
    pub commit_count: usize,
    pub first_commit: String,
    pub last_commit: String,
    pub first_timestamp: i64,
    pub last_timestamp: i64,
    pub is_member: bool,
    pub is_active: bool,
}

/// A contributor without the local-time date texts.
pub struct ContributorV {
    pub name: Seq<char>,
    pub email: Seq<char>,
    pub commit_count: nat,
    pub first_timestamp: int,
    pub last_timestamp: int,
    pub is_member: bool,
    pub is_active: bool,
}

impl View for Contributor {
    type V = ContributorV;

    open spec fn view(&self) -> ContributorV {
        ContributorV {
            name: self.name@,
            email: self.email@,
            commit_count: self.commit_count as nat,
            first_timestamp: self.first_timestamp as int,
            last_timestamp: self.last_timestamp as int,
            is_member: self.is_member,
            is_active: self.is_active,
        }
    }
}

pub open spec fn contributors_view(s: Seq<Contributor>) -> Seq<ContributorV> {
    s.map_values(|c: Contributor| c@)
}

/// The contributor a group describes: its addresses joined with `, `, and
/// whether its name is a member's canonical name and that member active.
pub open spec fn contributor_of(g: GroupV, ms: Seq<MemberV>) -> ContributorV {
    ContributorV {
        name: g.name,
        email: join(g.emails, ", "@),
        commit_count: g.count,
        first_timestamp: g.first,
        last_timestamp: g.last,
        is_member: member_status(ms, g.name).0,
        is_active: member_status(ms, g.name).1,
    }
}

pub open spec fn commit_count_key() -> spec_fn(ContributorV) -> int {
    |c: ContributorV| c.commit_count as int
}

/// The contributors of a log listing: one per resolved name, most commits
/// first, those with equal counts in the order their first line appears.
pub open spec fn contributor_list(log: Seq<char>, ms: Seq<MemberV>) -> Seq<ContributorV> {
    sort_desc(
        groups_of(author_lines(log), ms).map_values(|g: GroupV| contributor_of(g, ms)),
        commit_count_key(),
    )
}

/// Groups the lines of `git log --format=%an|||%ae|||%at` by person (a
/// member's names and addresses count as that member's canonical name) and
/// sorts the result by commit count, largest first.
pub fn process_contributor_log(log_data: &str, members: &[Member]) -> (r: Vec<Contributor>)
    ensures
        contributors_view(r@) == contributor_list(log_data@, members_view(members@)),
        forall|k: int| 0 <= k < r@.len() ==> stamp_text((#[trigger] r@[k]).first_timestamp, r@[k].first_commit@)
            && stamp_text(r@[k].last_timestamp, r@[k].last_commit@),
{
    let recs = parse_author_lines(log_data);
    let groups = group_commits(&recs, members);
    let ghost ms = members_view(members@);
    let ghost gv = groups_view(groups@);
    let ghost cf = |g: GroupV| contributor_of(g, ms);
    let sep = chars_of(", ");
    let mut cs: Vec<Contributor> = Vec::new();
    let mut keys: Vec<i128> = Vec::new();
    let mut i: usize = 0;
    while i < groups.len()
        invariant
            i <= groups@.len(),
            gv == groups_view(groups@),
            ms == members_view(members@),
            sep@ == ", "@,
            cf == (|g: GroupV| contributor_of(g, ms)),
            contributors_view(cs@) == gv.take(i as int).map_values(cf),
            keys@.len() == cs@.len(),
            forall|k: int| 0 <= k < cs@.len() ==> keys@[k] == (#[trigger] cs@[k]).commit_count,
            forall|k: int| 0 <= k < cs@.len() ==> stamp_text((#[trigger] cs@[k]).first_timestamp, cs@[k].first_commit@)
                && stamp_text(cs@[k].last_timestamp, cs@[k].last_commit@),
        decreases groups.len() - i,
    {
        let g = &groups[i];
        assert(gv[i as int] == g@);
        let (is_member, is_active) = member_status_exec(members, &g.name);
        let c = Contributor {
            name: string_of(&g.name),
            email: string_of(&join_exec(&g.emails, &sep)),
            commit_count: g.count,
            first_commit: format_timestamp(g.first),
            last_commit: format_timestamp(g.last),
            first_timestamp: g.first,
            last_timestamp: g.last,
            is_member,
            is_active,
        };
        let ghost prev = cs@;
        let ghost pk = keys@;
        cs.push(c);
        keys.push(g.count as i128);
        proof {
            assert(c@ == cf(gv[i as int]));
            assert(gv.take(i + 1) =~= gv.take(i as int).push(gv[i as int]));
            assert(gv.take(i as int).push(gv[i as int]).map_values(cf) =~= gv.take(i as int).map_values(cf).push(cf(gv[i as int])));
            assert(contributors_view(cs@) =~= contributors_view(prev).push(c@));
            assert forall|k: int| 0 <= k < cs@.len() implies keys@[k] == (#[trigger] cs@[k]).commit_count by {
                if k < prev.len() {
                    assert(cs@[k] == prev[k]);
                    assert(keys@[k] == pk[k]);
                }
            }
            assert forall|k: int| 0 <= k < cs@.len() implies stamp_text((#[trigger] cs@[k]).first_timestamp, cs@[k].first_commit@)
                && stamp_text(cs@[k].last_timestamp, cs@[k].last_commit@) by {
                if k < prev.len() {
                    assert(cs@[k] == prev[k]);
                }
            }
        }
        i = i + 1;
    }
    assert(gv.take(groups.len() as int) =~= gv);
    let ghost before = cs@;
    let ghost kc = |c: Contributor| c.commit_count as int;
    let sorted = stable_sort_desc(cs, keys, Ghost(kc));
    proof {
        let p = |c: Contributor| stamp_text(c.first_timestamp, c.first_commit@)
            && stamp_text(c.last_timestamp, c.last_commit@);
        assert forall|k: int| 0 <= k < before.len() implies p(#[trigger] before[k]) by {}
        lemma_sort_desc_all(before, kc, p);
        assert forall|k: int| 0 <= k < sorted@.len() implies stamp_text((#[trigger] sorted@[k]).first_timestamp, sorted@[k].first_commit@)
            && stamp_text(sorted@[k].last_timestamp, sorted@[k].last_commit@) by {
            assert(p(sorted@[k]));
        }
        lemma_sort_desc_map(before, kc, |c: Contributor| c@, commit_count_key());
        assert(contributors_view(sorted@) == sort_desc(before, kc).map_values(|c: Contributor| c@));
        assert(contributors_view(before) == before.map_values(|c: Contributor| c@));
    }
    sorted
}


// ---------------------------------------------------------------------------
// Laws

proof fn lemma_groups_count(recs: Seq<(Seq<char>, Seq<char>, i64)>, ms: Seq<MemberV>)
    ensures
        sum_by(groups_of(recs, ms), |g: GroupV| g.count as int) == recs.len(),
    decreases recs.len(),
{
    if recs.len() > 0 {
        let f = |g: GroupV| g.count as int;
        lemma_groups_count(recs.drop_last(), ms);
        let gs = groups_of(recs.drop_last(), ms);
        let r = recs.last();
        let name = resolve_name(ms, r.0, r.1);
        if exists|k: int| 0 <= k < gs.len() && (#[trigger] gs[k]).name == name {
            let k = choose|k: int| 0 <= k < gs.len() && (#[trigger] gs[k]).name == name;
            lemma_sum_by_update(gs, f, k, bump_group(gs[k], r.1, r.2 as int));
        } else {
            let ng = new_group(name, r.1, r.2 as int);
            assert(gs.push(ng).drop_last() =~= gs);
            assert(sum_by(gs.push(ng), f) == sum_by(gs, f) + f(ng));
        }
    }
}

/// Every person appears once among the contributors of a log.
pub proof fn lemma_contributors_distinct(log: Seq<char>, ms: Seq<MemberV>)
    ensures
        forall|i: int, j: int| 0 <= i < contributor_list(log, ms).len() && 0 <= j < contributor_list(log, ms).len() && i != j
            ==> (#[trigger] contributor_list(log, ms)[i]).name != (#[trigger] contributor_list(log, ms)[j]).name,
{
    let gs = groups_of(author_lines(log), ms);
    lemma_groups_distinct(author_lines(log), ms);
    let cf = |g: GroupV| contributor_of(g, ms);
    let cs = gs.map_values(cf);
    let p = |a: ContributorV, b: ContributorV| a.name != b.name;
    assert forall|i: int, j: int| 0 <= i < cs.len() && 0 <= j < cs.len() && i != j implies p(#[trigger] cs[i], #[trigger] cs[j]) by {
        if i < j {
            assert(gs[i].name != gs[j].name);
        } else {
            assert(gs[j].name != gs[i].name);
        }
    }
    assert(pairwise(cs, p));
    lemma_sort_desc_pairwise(cs, commit_count_key(), p);
    let r = contributor_list(log, ms);
    assert forall|i: int, j: int| 0 <= i < r.len() && 0 <= j < r.len() && i != j implies (#[trigger] r[i]).name != (#[trigger] r[j]).name by {
        assert(p(r[i], r[j]));
    }
}

/// The contributors of a log come most commits first.
pub proof fn lemma_contributors_by_count(log: Seq<char>, ms: Seq<MemberV>)
    ensures
        forall|i: int, j: int| 0 <= i < j < contributor_list(log, ms).len()
            ==> (#[trigger] contributor_list(log, ms)[i]).commit_count >= (#[trigger] contributor_list(log, ms)[j]).commit_count,
{
    let cs = groups_of(author_lines(log), ms).map_values(|g: GroupV| contributor_of(g, ms));
    lemma_sort_desc_sorted(cs, commit_count_key());
    let r = contributor_list(log, ms);
    assert forall|i: int, j: int| 0 <= i < j < r.len() implies (#[trigger] r[i]).commit_count >= (#[trigger] r[j]).commit_count by {
        assert(commit_count_key()(r[i]) >= commit_count_key()(r[j]));
    }
}

/// The commit counts of the contributors add up to the number of author
/// lines in the log: every commit is counted once.
pub proof fn lemma_contributors_total(log: Seq<char>, ms: Seq<MemberV>)
    ensures
        sum_by(contributor_list(log, ms), |c: ContributorV| c.commit_count as int) == author_lines(log).len(),
{
    let gs = groups_of(author_lines(log), ms);
    let cf = |g: GroupV| contributor_of(g, ms);
    let fc = |c: ContributorV| c.commit_count as int;
    let fg = |g: GroupV| g.count as int;
    lemma_groups_count(author_lines(log), ms);
    lemma_sum_by_map(gs, cf, fc, fg);
    lemma_sort_desc_sum(gs.map_values(cf), commit_count_key(), fc);
}


// ---------------------------------------------------------------------------
// From the log command

/// The arguments of the author log command.
pub fn contributor_log_args() -> (r: Vec<String>)
    ensures
        strings_view(r@) == seq!["log"@, "--format=%an|||%ae|||%at"@],
{
    let mut r = Vec::new();
    r.push(lit("log"));
    r.push(lit("--format=%an|||%ae|||%at"));
    assert(strings_view(r@) =~= seq!["log"@, "--format=%an|||%ae|||%at"@]);
    r
}

/// The contributors, from the result of running the author log command: a
/// failed run (a repository without commits) gives none.
pub fn get_contributors(output: Result<String, String>, members: &[Member]) -> (r: Result<Vec<Contributor>, String>)
    ensures
        r is Ok,
        output is Err ==> r->Ok_0@.len() == 0,
        output matches Ok(o) ==> contributors_view(r->Ok_0@) == contributor_list(o@, members_view(members@)),
{
    match output {
        Err(_) => Ok(Vec::new()),
        Ok(o) => Ok(process_contributor_log(o.as_str(), members)),
    }
}


// ---------------------------------------------------------------------------
// The contributors a dashboard shows

/// Whether a contributor is shown: all are, or with the active-members
/// filter on, the registered members that are active.
pub open spec fn shown(c: Contributor, active_only: bool) -> bool {
    !active_only || (c.is_member && c.is_active)
}

pub open spec fn shown_pick(active_only: bool) -> spec_fn(Contributor) -> Option<Contributor> {
    |c: Contributor| if shown(c, active_only) { Some(c) } else { None }
}

pub open spec fn commit_counts() -> spec_fn(Contributor) -> int {
    |c: Contributor| c.commit_count as int
}

/// The contributors shown, in order, and their commits in total (the sum
/// that their shares are taken of).
pub fn shown_contributors(contributors: Vec<Contributor>, active_only: bool) -> (r: (Vec<Contributor>, usize))
    requires
        sum_by(contributors@, commit_counts()) <= usize::MAX,
    ensures
        r.0@ == filter_map(contributors@, shown_pick(active_only)),
        r.1 == sum_by(r.0@, commit_counts()),
{
    let ghost orig = contributors@;
    let ghost cf = commit_counts();
    let ghost g = shown_pick(active_only);
    let n = contributors.len();
    let mut rest = contributors;
    let mut out: Vec<Contributor> = Vec::new();
    let mut total: usize = 0;
    let mut i: usize = 0;
    assert(orig.skip(0) =~= orig);
    assert(orig.take(0) =~= Seq::<Contributor>::empty());
    proof {
        lemma_sum_prefix_le(orig, cf, 0);
    }
    while rest.len() > 0
        invariant
            n == orig.len(),
            cf == commit_counts(),
            g == shown_pick(active_only),
            i + rest@.len() == n,
            rest@ == orig.skip(i as int),
            out@ == filter_map(orig.take(i as int), g),
            total == sum_by(out@, cf),
            sum_by(out@, cf) <= sum_by(orig.take(i as int), cf),
            sum_by(orig.take(i as int), cf) <= sum_by(orig, cf),
            sum_by(orig, cf) <= usize::MAX,
        decreases rest@.len(),
    {
        let x = rest.remove(0);
        proof {
            assert(x == orig[i as int]);
            assert(rest@ =~= orig.skip(i + 1));
            lemma_filter_map_take(orig, g, i as int);
            assert(orig.take(i + 1).drop_last() =~= orig.take(i as int));
            assert(sum_by(orig.take(i + 1), cf) == sum_by(orig.take(i as int), cf) + x.commit_count);
            lemma_sum_prefix_le(orig, cf, i + 1);
        }
        if !active_only || (x.is_member && x.is_active) {
            let ghost before = out@;
            total = total + x.commit_count;
            out.push(x);
            proof {
                assert(out@.drop_last() =~= before);
            }
        }
        i = i + 1;
    }
    proof {
        assert(orig.take(n as int) =~= orig);
    }
    (out, total)
}

proof fn lemma_sum_prefix_le(s: Seq<Contributor>, f: spec_fn(Contributor) -> int, i: int)
    requires
        0 <= i <= s.len(),
        f == commit_counts(),
    ensures
        sum_by(s.take(i), f) <= sum_by(s, f),
    decreases s.len(),
{
    if i == s.len() {
        assert(s.take(i) =~= s);
    } else {
        assert(s.drop_last().take(i) =~= s.take(i));
        lemma_sum_prefix_le(s.drop_last(), f, i);
    }
}


// ---------------------------------------------------------------------------
// How author lines resolve

/// A member that neither the name nor the address of an author line names:
/// its canonical name is not the name, and none of its aliases is the name
/// or the address, ignoring ASCII case.
pub open spec fn names_neither(m: MemberV, name: Seq<char>, email: Seq<char>) -> bool {
    &&& !eq_ignore_ascii_case(m.canonical_name, name)
    &&& forall|k: int| 0 <= k < m.aliases.len() ==> !eq_ignore_ascii_case(#[trigger] m.aliases[k], name)
        && !eq_ignore_ascii_case(m.aliases[k], email)
}

proof fn lemma_resolve_from(ms: Seq<MemberV>, name: Seq<char>, email: Seq<char>, i: int, j: int)
    requires
        0 <= i <= j < ms.len(),
        forall|x: int| i <= x < j ==> names_neither(#[trigger] ms[x], name, email),
        !names_neither(ms[j], name, email),
    ensures
        resolve_from(ms, name, email, i) == ms[j].canonical_name,
    decreases j - i,
{
    if i < j {
        assert(names_neither(ms[i], name, email));
        lemma_resolve_from(ms, name, email, i + 1, j);
    }
}

/// An author line counts under the canonical name of the first member whose
/// canonical name is the author's name, or one of whose aliases is the
/// author's name or the author's address, all ignoring ASCII case; so an
/// alias that is the address is enough.
pub proof fn lemma_resolve_first_named(ms: Seq<MemberV>, name: Seq<char>, email: Seq<char>, j: int)
    requires
        0 <= j < ms.len(),
        forall|x: int| 0 <= x < j ==> names_neither(#[trigger] ms[x], name, email),
        eq_ignore_ascii_case(ms[j].canonical_name, name) || exists|k: int| 0 <= k < ms[j].aliases.len()
            && (eq_ignore_ascii_case(#[trigger] ms[j].aliases[k], name) || eq_ignore_ascii_case(ms[j].aliases[k], email)),
    ensures
        resolve_name(ms, name, email) == ms[j].canonical_name,
{
    lemma_resolve_from(ms, name, email, 0, j);
}

proof fn lemma_resolve_from_none(ms: Seq<MemberV>, name: Seq<char>, email: Seq<char>, i: int)
    requires
        0 <= i,
        forall|x: int| 0 <= x < ms.len() ==> names_neither(#[trigger] ms[x], name, email),
    ensures
        resolve_from(ms, name, email, i) == name,
    decreases ms.len() - i,
{
    if i < ms.len() {
        assert(names_neither(ms[i], name, email));
        lemma_resolve_from_none(ms, name, email, i + 1);
    }
}

/// An author line that no member names (see `names_neither`) counts under
/// its own name.
pub proof fn lemma_resolve_unnamed(ms: Seq<MemberV>, name: Seq<char>, email: Seq<char>)
    requires
        forall|x: int| 0 <= x < ms.len() ==> names_neither(#[trigger] ms[x], name, email),
    ensures
        resolve_name(ms, name, email) == name,
{
    lemma_resolve_from_none(ms, name, email, 0);
}


// ---------------------------------------------------------------------------
// Whose commits each contributor counts

/// The number of author lines that count under `name`.
pub open spec fn lines_under(recs: Seq<(Seq<char>, Seq<char>, i64)>, ms: Seq<MemberV>, name: Seq<char>) -> nat
    decreases recs.len(),
{
    if recs.len() == 0 {
        0
    } else {
        lines_under(recs.drop_last(), ms, name) + if resolve_name(ms, recs.last().0, recs.last().1) == name {
            1nat
        } else {
            0nat
        }
    }
}

proof fn lemma_lines_under_member(recs: Seq<(Seq<char>, Seq<char>, i64)>, ms: Seq<MemberV>, i: int)
    requires
        0 <= i < recs.len(),
    ensures
        lines_under(recs, ms, resolve_name(ms, recs[i].0, recs[i].1)) >= 1,
    decreases recs.len(),
{
    if i < recs.len() - 1 {
        assert(recs.drop_last()[i] == recs[i]);
        lemma_lines_under_member(recs.drop_last(), ms, i);
    }
}

proof fn lemma_groups_lines(recs: Seq<(Seq<char>, Seq<char>, i64)>, ms: Seq<MemberV>)
    ensures
        forall|k: int| 0 <= k < groups_of(recs, ms).len() ==> (#[trigger] groups_of(recs, ms)[k]).count == lines_under(
            recs,
            ms,
            groups_of(recs, ms)[k].name,
        ),
        forall|n: Seq<char>| #[trigger] lines_under(recs, ms, n) > 0 ==> exists|k: int| 0 <= k < groups_of(recs, ms).len()
            && (#[trigger] groups_of(recs, ms)[k]).name == n,
    decreases recs.len(),
{
    if recs.len() > 0 {
        let init = recs.drop_last();
        lemma_groups_lines(init, ms);
        lemma_groups_distinct(init, ms);
        let gs = groups_of(init, ms);
        let r = recs.last();
        let name = resolve_name(ms, r.0, r.1);
        let ng = groups_of(recs, ms);
        if exists|k: int| 0 <= k < gs.len() && (#[trigger] gs[k]).name == name {
            let k0 = choose|k: int| 0 <= k < gs.len() && (#[trigger] gs[k]).name == name;
            assert(ng == gs.update(k0, bump_group(gs[k0], r.1, r.2 as int)));
            assert forall|k: int| 0 <= k < ng.len() implies (#[trigger] ng[k]).count == lines_under(recs, ms, ng[k].name) by {
                if k != k0 {
                    assert(gs[k].name != gs[k0].name);
                }
            }
            assert forall|n: Seq<char>| #[trigger] lines_under(recs, ms, n) > 0 implies exists|k: int| 0 <= k < ng.len()
                && (#[trigger] ng[k]).name == n by {
                if n == name {
                    assert(ng[k0].name == n);
                } else {
                    assert(lines_under(init, ms, n) > 0);
                    let k = choose|k: int| 0 <= k < gs.len() && (#[trigger] gs[k]).name == n;
                    assert(ng[k].name == n);
                }
            }
        } else {
            let g = new_group(name, r.1, r.2 as int);
            assert(ng == gs.push(g));
            if lines_under(init, ms, name) > 0 {
                let k = choose|k: int| 0 <= k < gs.len() && (#[trigger] gs[k]).name == name;
                assert(false);
            }
            assert forall|k: int| 0 <= k < ng.len() implies (#[trigger] ng[k]).count == lines_under(recs, ms, ng[k].name) by {
                if k < gs.len() {
                    assert(ng[k] == gs[k]);
                    assert(gs[k].name != name);
                }
            }
            assert forall|n: Seq<char>| #[trigger] lines_under(recs, ms, n) > 0 implies exists|k: int| 0 <= k < ng.len()
                && (#[trigger] ng[k]).name == n by {
                if n == name {
                    assert(ng[gs.len() as int].name == n);
                } else {
                    assert(lines_under(init, ms, n) > 0);
                    let k = choose|k: int| 0 <= k < gs.len() && (#[trigger] gs[k]).name == n;
                    assert(ng[k].name == n);
                }
            }
        }
    }
}

proof fn lemma_named_sum(s: Seq<ContributorV>, n: Seq<char>)
    ensures
        sum_by(s, |c: ContributorV| if c.name == n { 1int } else { 0int }) >= 0,
        sum_by(s, |c: ContributorV| if c.name == n { 1int } else { 0int }) > 0 <==> exists|k: int| 0 <= k < s.len()
            && (#[trigger] s[k]).name == n,
    decreases s.len(),
{
    if s.len() > 0 {
        let t = s.drop_last();
        lemma_named_sum(t, n);
        if exists|k: int| 0 <= k < t.len() && (#[trigger] t[k]).name == n {
            let k = choose|k: int| 0 <= k < t.len() && (#[trigger] t[k]).name == n;
            assert(s[k] == t[k]);
        }
        if exists|k: int| 0 <= k < s.len() && (#[trigger] s[k]).name == n {
            let k = choose|k: int| 0 <= k < s.len() && (#[trigger] s[k]).name == n;
            if k < t.len() {
                assert(t[k] == s[k]);
            }
        }
    }
}

/// Each contributor counts exactly the author lines that count under its
/// name (see `resolve_name`), and every author line counts under the name
/// of some contributor: with the laws on `resolve_name`, a line whose
/// address is a member's alias is counted for that member.
pub proof fn lemma_contributors_count_lines(log: Seq<char>, ms: Seq<MemberV>)
    ensures
        forall|i: int| 0 <= i < contributor_list(log, ms).len() ==> (#[trigger] contributor_list(log, ms)[i]).commit_count
            == lines_under(author_lines(log), ms, contributor_list(log, ms)[i].name),
        forall|j: int| 0 <= j < author_lines(log).len() ==> exists|i: int| 0 <= i < contributor_list(log, ms).len()
            && (#[trigger] contributor_list(log, ms)[i]).name == resolve_name(
                ms,
                (#[trigger] author_lines(log)[j]).0,
                author_lines(log)[j].1,
            ),
{
    let recs = author_lines(log);
    lemma_groups_lines(recs, ms);
    let gs = groups_of(recs, ms);
    let cf = |g: GroupV| contributor_of(g, ms);
    let cs = gs.map_values(cf);
    let p = |c: ContributorV| c.commit_count == lines_under(recs, ms, c.name);
    assert forall|k: int| 0 <= k < cs.len() implies #[trigger] p(cs[k]) by {
        assert(cs[k].name == gs[k].name && cs[k].commit_count == gs[k].count);
    }
    lemma_sort_desc_all(cs, commit_count_key(), p);
    let r = contributor_list(log, ms);
    assert forall|i: int| 0 <= i < r.len() implies (#[trigger] r[i]).commit_count == lines_under(recs, ms, r[i].name) by {
        assert(p(r[i]));
    }
    assert forall|j: int| 0 <= j < recs.len() implies exists|i: int| 0 <= i < r.len()
        && (#[trigger] r[i]).name == resolve_name(ms, (#[trigger] recs[j]).0, recs[j].1) by {
        let n = resolve_name(ms, recs[j].0, recs[j].1);
        lemma_lines_under_member(recs, ms, j);
        let k = choose|k: int| 0 <= k < gs.len() && (#[trigger] gs[k]).name == n;
        assert(cs[k].name == n);
        lemma_named_sum(cs, n);
        lemma_sort_desc_sum(cs, commit_count_key(), |c: ContributorV| if c.name == n { 1int } else { 0int });
        lemma_named_sum(r, n);
    }
}

} // verus!
