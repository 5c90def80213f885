//! The changed files of a comparison arranged as a directory tree.
use vstd::prelude::*;
use crate::git::{ChangedFile, ChangedFileV, changed_view, lit, strings_view};
use crate::sort::{bag_by, key_before, lemma_sort_by_key_sorted, lemma_sort_rel_all, lemma_sort_rel_bag, lemma_sort_rel_map, lemma_sort_rel_pairwise, pairwise, rel_sorted, sort_rel, stable_sort_by_keys};
use vstd::multiset::Multiset;
use crate::text::{chars_of, concat, decimal, decimal_chars, filter_map, lemma_filter_map_all, lemma_filter_map_take, lemma_splitn_nonempty, seq_eq, split_char, split_seq, string_of, vviews};

verus! {

/// A node of the changed-files tree: a directory with its path from the
/// root and its children, or a file.
#[derive(Debug)]
pub enum DiffTreeNode {
    Dir { name: String, full_path: String, children: Vec<DiffTreeNode> },
    File { name: String, file: ChangedFile },
}

/// The tree as the contracts see it.
pub enum TreeV {
    Dir { name: Seq<char>, full_path: Seq<char>, children: Seq<TreeV> },
    File { name: Seq<char>, file: ChangedFileV },
}

pub open spec fn node_view(n: DiffTreeNode) -> TreeV
    decreases n,
{
    match n {
        DiffTreeNode::Dir { name, full_path, children } => {
            proof {
                assert(decreases_to!(n => children));
                assert(decreases_to!(children => children@));
            }
            TreeV::Dir { name: name@, full_path: full_path@, children: nodes_view(children@) }
        },
        DiffTreeNode::File { name, file } => TreeV::File { name: name@, file: file@ },
    }
}

pub open spec fn nodes_view(s: Seq<DiffTreeNode>) -> Seq<TreeV>
    decreases s,
{
    if s.len() == 0 {
        Seq::empty()
    } else {
        proof {
            assert(decreases_to!(s => s[s.len() - 1]));
            assert(decreases_to!(s => s.subrange(0, s.len() - 1)));
        }
        nodes_view(s.subrange(0, s.len() - 1)).push(node_view(s[s.len() - 1]))
    }
}


pub proof fn lemma_nodes_view(s: Seq<DiffTreeNode>)
    ensures
        nodes_view(s).len() == s.len(),
        forall|i: int| 0 <= i < s.len() ==> #[trigger] nodes_view(s)[i] == node_view(s[i]),
    decreases s.len(),
{
    if s.len() > 0 {
        let t = s.subrange(0, s.len() - 1);
        lemma_nodes_view(t);
        assert forall|i: int| 0 <= i < s.len() implies #[trigger] nodes_view(s)[i] == node_view(s[i]) by {
            if i < s.len() - 1 {
                assert(t[i] == s[i]);
            }
        }
    }
}

/// Two sequences of nodes with the same views element by element have the
/// same view.
pub proof fn lemma_nodes_view_ext(s: Seq<DiffTreeNode>, v: Seq<TreeV>)
    requires
        v.len() == s.len(),
        forall|i: int| 0 <= i < s.len() ==> #[trigger] v[i] == node_view(s[i]),
    ensures
        nodes_view(s) == v,
{
    lemma_nodes_view(s);
    assert(nodes_view(s) =~= v);
}

/// A copy of a changed-file record.
pub fn copy_changed_file(f: &ChangedFile) -> (r: ChangedFile)
    ensures
        r@ == f@,
{
    let old_path = match &f.old_path {
        Some(p) => Some(p.clone()),
        None => None,
    };
    ChangedFile {
        status: f.status.clone(),
        path: f.path.clone(),
        old_path,
        additions: f.additions,
        deletions: f.deletions,
    }
}

// ---------------------------------------------------------------------------
// Building

/// The path of a child directory: its name under `parent`, or the name
/// alone at the root.
pub open spec fn child_path(parent: Seq<char>, name: Seq<char>) -> Seq<char> {
    if parent.len() == 0 {
        name
    } else {
        parent + seq!['/'] + name
    }
}

/// The position of the first directory named `name` from `i` on.
pub open spec fn find_dir_from(ns: Seq<TreeV>, name: Seq<char>, i: int) -> Option<int>
    decreases ns.len() - i,
{
    if i < 0 || i >= ns.len() {
        None
    } else if ns[i] matches TreeV::Dir { name: n, .. } && n == name {
        Some(i)
    } else {
        find_dir_from(ns, name, i + 1)
    }
}

/// `ns` with the file added under the path `parts[idx..]`: the last part
/// is the file's name; each earlier part is a directory, the first one of
/// that name at its level, or a new one added after the others.
pub open spec fn insert_path(ns: Seq<TreeV>, parts: Seq<Seq<char>>, idx: int, parent: Seq<char>, file: ChangedFileV) -> Seq<TreeV>
    decreases parts.len() - idx,
{
    if idx + 1 >= parts.len() {
        ns.push(TreeV::File { name: parts[idx], file })
    } else {
        let dir = parts[idx];
        let full = child_path(parent, dir);
        match find_dir_from(ns, dir, 0) {
            Some(k) => match ns[k] {
                TreeV::Dir { name, full_path, children } => ns.update(
                    k,
                    TreeV::Dir { name, full_path, children: insert_path(children, parts, idx + 1, full, file) },
                ),
                TreeV::File { .. } => ns,
            },
            None => ns.push(
                TreeV::Dir { name: dir, full_path: full, children: insert_path(Seq::empty(), parts, idx + 1, full, file) },
            ),
        }
    }
}

proof fn lemma_find_dir_from(ns: Seq<TreeV>, name: Seq<char>, i: int)
    requires
        0 <= i,
    ensures
        find_dir_from(ns, name, i) matches Some(k) ==> (i <= k < ns.len() && (ns[k] matches TreeV::Dir { name: n, .. } && n == name)),
    decreases ns.len() - i,
{
    if 0 <= i < ns.len() && !(ns[i] matches TreeV::Dir { name: n, .. } && n == name) {
        lemma_find_dir_from(ns, name, i + 1);
    }
}

fn find_dir(nodes: &Vec<DiffTreeNode>, name: &Vec<char>) -> (r: Option<usize>)
    ensures
        r matches Some(k) ==> k < nodes@.len() && find_dir_from(nodes_view(nodes@), name@, 0) == Some(k as int),
        r is None ==> find_dir_from(nodes_view(nodes@), name@, 0) is None,
{
    let ghost nv = nodes_view(nodes@);
    proof {
        lemma_nodes_view(nodes@);
    }
    let mut j: usize = 0;
    while j < nodes.len()
        invariant
            j <= nodes@.len(),
            nv == nodes_view(nodes@),
            nv.len() == nodes@.len(),
            forall|i: int| 0 <= i < nodes@.len() ==> #[trigger] nv[i] == node_view(nodes@[i]),
            find_dir_from(nv, name@, 0) == find_dir_from(nv, name@, j as int),
        decreases nodes.len() - j,
    {
        assert(nv[j as int] == node_view(nodes@[j as int]));
        match &nodes[j] {
            DiffTreeNode::Dir { name: n, .. } => {
                let nc = chars_of(n.as_str());
                if seq_eq(&nc, name) {
                    return Some(j);
                }
            },
            DiffTreeNode::File { .. } => {},
        }
        j = j + 1;
    }
    None
}


fn insert_into_tree(
    nodes: &mut Vec<DiffTreeNode>,
    parts: &Vec<Vec<char>>,
    index: usize,
    parent_path: &Vec<char>,
    file: &ChangedFile,
)
    requires
        index < parts@.len(),
    ensures
        nodes_view(final(nodes)@) == insert_path(nodes_view(old(nodes)@), vviews(parts@), index as int, parent_path@, file@),
    decreases parts@.len() - index,
{
    let ghost pv = vviews(parts@);
    let ghost before = nodes@;
    proof {
        lemma_nodes_view(before);
        assert(pv[index as int] == parts@[index as int]@);
    }
    if parts.len() - index <= 1 {
        let leaf = DiffTreeNode::File { name: string_of(&parts[index]), file: copy_changed_file(file) };
        nodes.push(leaf);
        proof {
            lemma_nodes_view_ext(nodes@, nodes_view(before).push(node_view(leaf)));
        }
        return;
    }
    let dir = &parts[index];
    let full = if parent_path.len() == 0 {
        dir.clone()
    } else {
        let mut slash: Vec<char> = Vec::new();
        slash.push('/');
        let a = concat(parent_path, &slash);
        concat(&a, dir)
    };
    assert(full@ == child_path(parent_path@, pv[index as int]));
    match find_dir(nodes, dir) {
        Some(k) => {
            proof {
                lemma_find_dir_from(nodes_view(before), dir@, 0);
            }
            let node = nodes.remove(k);
            match node {
                DiffTreeNode::Dir { name, full_path, children } => {
                    let mut ch = children;
                    let ghost old_ch = ch@;
                    insert_into_tree(&mut ch, parts, index + 1, &full, file);
                    let nn = DiffTreeNode::Dir { name, full_path, children: ch };
                    nodes.insert(k, nn);
                    proof {
                        assert(nodes@ =~= before.update(k as int, nn));
                        assert(node_view(before[k as int]) == nodes_view(before)[k as int]);
                        assert(node_view(nn) == TreeV::Dir {
                            name: name@,
                            full_path: full_path@,
                            children: insert_path(nodes_view(old_ch), pv, index + 1, full@, file@),
                        });
                        lemma_nodes_view_ext(nodes@, nodes_view(before).update(k as int, node_view(nn)));
                    }
                },
                DiffTreeNode::File { name, file: f } => {
                    proof {
                        assert(node_view(before[k as int]) == nodes_view(before)[k as int]);
                        assert(false);
                    }
                    nodes.insert(k, DiffTreeNode::File { name, file: f });
                },
            }
        },
        None => {
            let mut ch: Vec<DiffTreeNode> = Vec::new();
            proof {
                lemma_nodes_view_ext(ch@, Seq::empty());
            }
            insert_into_tree(&mut ch, parts, index + 1, &full, file);
            let nn = DiffTreeNode::Dir { name: string_of(dir), full_path: string_of(&full), children: ch };
            nodes.push(nn);
            proof {
                lemma_nodes_view_ext(nodes@, nodes_view(before).push(node_view(nn)));
            }
        },
    }
}


// ---------------------------------------------------------------------------
// Sorting

/// The sort key of a node: directories (rank 0) before files (rank 1),
/// then by name.
pub open spec fn tree_key(n: TreeV) -> (u8, Seq<char>) {
    match n {
        TreeV::Dir { name, .. } => (0u8, name),
        TreeV::File { name, .. } => (1u8, name),
    }
}

pub open spec fn node_before(a: TreeV, b: TreeV) -> bool {
    key_before(tree_key(a), tree_key(b), false)
}

/// A node with every directory level below it sorted.
pub open spec fn sort_node(n: TreeV) -> TreeV
    decreases n, 2nat,
{
    match n {
        TreeV::Dir { name, full_path, children } => TreeV::Dir { name, full_path, children: sort_nodes(children) },
        TreeV::File { .. } => n,
    }
}

pub open spec fn sort_each(s: Seq<TreeV>) -> Seq<TreeV>
    decreases s, 0nat,
{
    if s.len() == 0 {
        Seq::empty()
    } else {
        proof {
            assert(decreases_to!(s => s[s.len() - 1]));
            assert(decreases_to!(s => s.subrange(0, s.len() - 1)));
        }
        sort_each(s.subrange(0, s.len() - 1)).push(sort_node(s[s.len() - 1]))
    }
}

/// A level sorted, directories first and then by name (stably), with every
/// level below sorted the same way.
pub open spec fn sort_nodes(s: Seq<TreeV>) -> Seq<TreeV>
    decreases s, 1nat,
{
    sort_rel(sort_each(s), |a: TreeV, b: TreeV| node_before(a, b))
}

proof fn lemma_sort_each(s: Seq<TreeV>)
    ensures
        sort_each(s).len() == s.len(),
        forall|i: int| 0 <= i < s.len() ==> #[trigger] sort_each(s)[i] == sort_node(s[i]),
    decreases s.len(),
{
    if s.len() > 0 {
        let t = s.subrange(0, s.len() - 1);
        lemma_sort_each(t);
        assert forall|i: int| 0 <= i < s.len() implies #[trigger] sort_each(s)[i] == sort_node(s[i]) by {
            if i < s.len() - 1 {
                assert(t[i] == s[i]);
            }
        }
    }
}

fn tree_key_exec(n: &DiffTreeNode) -> (r: (u8, Vec<char>))
    ensures
        (r.0, r.1@) == tree_key(node_view(*n)),
{
    match n {
        DiffTreeNode::Dir { name, .. } => (0, chars_of(name.as_str())),
        DiffTreeNode::File { name, .. } => (1, chars_of(name.as_str())),
    }
}

/// Sorts every level of the tree: directories first, then by name.
pub fn sort_tree_nodes(nodes: &mut Vec<DiffTreeNode>)
    ensures
        nodes_view(final(nodes)@) == sort_nodes(nodes_view(old(nodes)@)),
    decreases old(nodes)@,
{
    let ghost orig = nodes@;
    proof {
        lemma_nodes_view(orig);
        lemma_sort_each(nodes_view(orig));
    }
    let mut rest: Vec<DiffTreeNode> = Vec::new();
    std::mem::swap(&mut rest, nodes);
    let mut done: Vec<DiffTreeNode> = Vec::new();
    let mut keys: Vec<(u8, Vec<char>)> = Vec::new();
    let mut i: usize = 0;
    let n = rest.len();
    assert(orig.skip(0) =~= orig);
    while rest.len() > 0
        invariant
            n == orig.len(),
            orig == old(nodes)@,
            i + rest@.len() == n,
            rest@ == orig.skip(i as int),
            done@.len() == i,
            keys@.len() == i,
            nodes_view(orig).len() == n,
            forall|k: int| 0 <= k < n ==> #[trigger] nodes_view(orig)[k] == node_view(orig[k]),
            forall|k: int| 0 <= k < n ==> #[trigger] sort_each(nodes_view(orig))[k] == sort_node(nodes_view(orig)[k]),
            forall|k: int| 0 <= k < i ==> #[trigger] node_view(done@[k]) == sort_node(node_view(orig[k])),
            forall|k: int| 0 <= k < i ==> (#[trigger] keys@[k].0, keys@[k].1@) == tree_key(node_view(done@[k])),
        decreases rest@.len(),
    {
        let x = rest.remove(0);
        proof {
            assert(x == orig[i as int]);
            assert(rest@ =~= orig.skip(i + 1));
        }
        let sorted_node = match x {
            DiffTreeNode::Dir { name, full_path, children } => {
                let mut ch = children;
                proof {
                    assert(decreases_to!(orig => orig[i as int]));
                    assert(decreases_to!(orig[i as int] => ch));
                    assert(decreases_to!(ch => ch@));
                    assert(decreases_to!(orig => ch@));
                }
                let ghost before_ch = ch@;
                sort_tree_nodes(&mut ch);
                let d = DiffTreeNode::Dir { name, full_path, children: ch };
                assert(node_view(d) == TreeV::Dir { name: name@, full_path: full_path@, children: sort_nodes(nodes_view(before_ch)) });
                d
            },
            DiffTreeNode::File { name, file } => DiffTreeNode::File { name, file },
        };
        let k = tree_key_exec(&sorted_node);
        let ghost pd = done@;
        let ghost pk = keys@;
        done.push(sorted_node);
        keys.push(k);
        proof {
            assert forall|m: int| 0 <= m < i + 1 implies #[trigger] node_view(done@[m]) == sort_node(node_view(orig[m])) by {
                if m < i {
                    assert(done@[m] == pd[m]);
                }
            }
            assert forall|m: int| 0 <= m < i + 1 implies (#[trigger] keys@[m].0, keys@[m].1@) == tree_key(node_view(done@[m])) by {
                if m < i {
                    assert(done@[m] == pd[m]);
                    assert(keys@[m] == pk[m]);
                }
            }
        }
        i = i + 1;
    }
    let ghost dv = done@;
    let ghost tk = |m: DiffTreeNode| tree_key(node_view(m));
    let sorted = stable_sort_by_keys(done, keys, false, Ghost(tk));
    proof {
        let ra = |a: DiffTreeNode, b: DiffTreeNode| key_before(tk(a), tk(b), false);
        let rb = |a: TreeV, b: TreeV| node_before(a, b);
        let f = |m: DiffTreeNode| node_view(m);
        lemma_sort_rel_map(dv, ra, f, rb);
        assert(dv.map_values(f) =~= sort_each(nodes_view(orig)));
        lemma_nodes_view_ext(sorted@, sorted@.map_values(f));
    }
    *nodes = sorted;
}


// ---------------------------------------------------------------------------
// Compressing single-directory chains

/// A directory whose only child is a directory, merged with it (`a` and
/// `b` become `a/b` with the path of `b`) until that no longer holds.
pub open spec fn merge_chain(name: Seq<char>, full_path: Seq<char>, children: Seq<TreeV>) -> TreeV
    decreases children,
{
    if children.len() == 1 && children[0] is Dir {
        match children[0] {
            TreeV::Dir { name: cn, full_path: cfp, children: cc } => {
                proof {
                    assert(decreases_to!(children => children[0]));
                    assert(decreases_to!(children[0] => cc));
                }
                merge_chain(name + seq!['/'] + cn, cfp, cc)
            },
            TreeV::File { .. } => TreeV::Dir { name, full_path, children },
        }
    } else {
        TreeV::Dir { name, full_path, children }
    }
}

/// A node with its single-directory chains merged, from the bottom up.
pub open spec fn compress_node(n: TreeV) -> TreeV
    decreases n, 1nat,
{
    match n {
        TreeV::Dir { name, full_path, children } => merge_chain(name, full_path, compress_each(children)),
        TreeV::File { .. } => n,
    }
}

pub open spec fn compress_each(s: Seq<TreeV>) -> Seq<TreeV>
    decreases s, 0nat,
{
    if s.len() == 0 {
        Seq::empty()
    } else {
        proof {
            assert(decreases_to!(s => s[s.len() - 1]));
            assert(decreases_to!(s => s.subrange(0, s.len() - 1)));
        }
        compress_each(s.subrange(0, s.len() - 1)).push(compress_node(s[s.len() - 1]))
    }
}

proof fn lemma_compress_each(s: Seq<TreeV>)
    ensures
        compress_each(s).len() == s.len(),
        forall|i: int| 0 <= i < s.len() ==> #[trigger] compress_each(s)[i] == compress_node(s[i]),
    decreases s.len(),
{
    if s.len() > 0 {
        let t = s.subrange(0, s.len() - 1);
        lemma_compress_each(t);
        assert forall|i: int| 0 <= i < s.len() implies #[trigger] compress_each(s)[i] == compress_node(s[i]) by {
            if i < s.len() - 1 {
                assert(t[i] == s[i]);
            }
        }
    }
}

fn merge_exec(name: String, full_path: String, children: Vec<DiffTreeNode>) -> (r: DiffTreeNode)
    ensures
        node_view(r) == merge_chain(name@, full_path@, nodes_view(children@)),
    decreases children@,
{
    proof {
        lemma_nodes_view(children@);
    }
    if children.len() == 1 {
        let mut cur = children;
        let c = cur.remove(0);
        match c {
            DiffTreeNode::Dir { name: cn, full_path: cfp, children: cc } => {
                proof {
                    assert(decreases_to!(children@ => children@[0]));
                    assert(decreases_to!(children@[0] => cc));
                    assert(decreases_to!(cc => cc@));
                    assert(decreases_to!(children@ => cc@));
                }
                let mut slash: Vec<char> = Vec::new();
                slash.push('/');
                let a = concat(&chars_of(name.as_str()), &slash);
                let nm = concat(&a, &chars_of(cn.as_str()));
                merge_exec(string_of(&nm), cfp, cc)
            },
            DiffTreeNode::File { name: fname, file } => {
                let mut back: Vec<DiffTreeNode> = Vec::new();
                let leaf = DiffTreeNode::File { name: fname, file };
                back.push(leaf);
                proof {
                    lemma_nodes_view(back@);
                    assert(back@ =~= children@);
                }
                DiffTreeNode::Dir { name, full_path, children: back }
            },
        }
    } else {
        DiffTreeNode::Dir { name, full_path, children }
    }
}

/// Merges every chain of directories that each hold only one directory
/// into one node (`src` holding only `app` becomes `src/app`).
pub fn compress_diff_tree(nodes: &mut Vec<DiffTreeNode>)
    ensures
        nodes_view(final(nodes)@) == compress_each(nodes_view(old(nodes)@)),
    decreases old(nodes)@,
{
    let ghost orig = nodes@;
    proof {
        lemma_nodes_view(orig);
        lemma_compress_each(nodes_view(orig));
    }
    let mut rest: Vec<DiffTreeNode> = Vec::new();
    std::mem::swap(&mut rest, nodes);
    let mut done: Vec<DiffTreeNode> = Vec::new();
    let mut i: usize = 0;
    let n = rest.len();
    assert(orig.skip(0) =~= orig);
    while rest.len() > 0
        invariant
            n == orig.len(),
            orig == old(nodes)@,
            i + rest@.len() == n,
            rest@ == orig.skip(i as int),
            done@.len() == i,
            nodes_view(orig).len() == n,
            forall|k: int| 0 <= k < n ==> #[trigger] nodes_view(orig)[k] == node_view(orig[k]),
            forall|k: int| 0 <= k < n ==> #[trigger] compress_each(nodes_view(orig))[k] == compress_node(nodes_view(orig)[k]),
            forall|k: int| 0 <= k < i ==> #[trigger] node_view(done@[k]) == compress_node(node_view(orig[k])),
        decreases rest@.len(),
    {
        let x = rest.remove(0);
        proof {
            assert(x == orig[i as int]);
            assert(rest@ =~= orig.skip(i + 1));
        }
        let c = match x {
            DiffTreeNode::Dir { name, full_path, children } => {
                let mut ch = children;
                proof {
                    assert(decreases_to!(orig => orig[i as int]));
                    assert(decreases_to!(orig[i as int] => ch));
                    assert(decreases_to!(ch => ch@));
                    assert(decreases_to!(orig => ch@));
                }
                compress_diff_tree(&mut ch);
                merge_exec(name, full_path, ch)
            },
            DiffTreeNode::File { name, file } => DiffTreeNode::File { name, file },
        };
        let ghost pd = done@;
        done.push(c);
        proof {
            assert forall|m: int| 0 <= m < i + 1 implies #[trigger] node_view(done@[m]) == compress_node(node_view(orig[m])) by {
                if m < i {
                    assert(done@[m] == pd[m]);
                }
            }
        }
        i = i + 1;
    }
    proof {
        lemma_nodes_view_ext(done@, compress_each(nodes_view(orig)));
    }
    *nodes = done;
}


// ---------------------------------------------------------------------------
// The tree of a list of changed files

/// The `/`-separated parts of a path.
pub open spec fn path_parts(p: Seq<char>) -> Seq<Seq<char>> {
    split_seq(p, seq!['/'])
}

/// The files inserted one after the other, in order.
pub open spec fn insert_files(files: Seq<ChangedFileV>) -> Seq<TreeV>
    decreases files.len(),
{
    if files.len() == 0 {
        Seq::empty()
    } else {
        insert_path(insert_files(files.drop_last()), path_parts(files.last().path), 0, Seq::empty(), files.last())
    }
}

/// The tree of the changed files: directories from their paths, every level
/// sorted with directories first and then by name.
pub open spec fn diff_tree(files: Seq<ChangedFileV>) -> Seq<TreeV> {
    sort_nodes(insert_files(files))
}

/// The changed files as a directory tree.
pub fn build_diff_tree(files: &[ChangedFile]) -> (r: Vec<DiffTreeNode>)
    ensures
        nodes_view(r@) == diff_tree(changed_view(files@)),
{
    let ghost fv = changed_view(files@);
    let mut root: Vec<DiffTreeNode> = Vec::new();
    let empty: Vec<char> = Vec::new();
    proof {
        lemma_nodes_view_ext(root@, Seq::empty());
        assert(fv.take(0) =~= Seq::<ChangedFileV>::empty());
    }
    let mut i: usize = 0;
    while i < files.len()
        invariant
            i <= files@.len(),
            fv == changed_view(files@),
            empty@ == Seq::<char>::empty(),
            nodes_view(root@) == insert_files(fv.take(i as int)),
        decreases files.len() - i,
    {
        let f = &files[i];
        let path = chars_of(f.path.as_str());
        let parts = split_char(&path, '/');
        proof {
            lemma_splitn_nonempty(path@, seq!['/'], None);
            assert(fv.take(i + 1).drop_last() =~= fv.take(i as int));
            assert(fv.take(i + 1).last() == f@);
        }
        insert_into_tree(&mut root, &parts, 0, &empty, f);
        i = i + 1;
    }
    assert(fv.take(files.len() as int) =~= fv);
    sort_tree_nodes(&mut root);
    root
}

/// The number of changed files above which the top-level directories start
/// collapsed.
pub const COLLAPSE_FILE_COUNT: usize = 500;

/// The paths of the top-level directories, when there are more than
/// `COLLAPSE_FILE_COUNT` changed files; none otherwise.
pub open spec fn dirs_to_collapse(tree: Seq<TreeV>, file_count: nat) -> Seq<Seq<char>> {
    if file_count <= COLLAPSE_FILE_COUNT {
        Seq::empty()
    } else {
        filter_map(tree, |n: TreeV| match n {
            TreeV::Dir { full_path, .. } => Some(full_path),
            TreeV::File { .. } => None,
        })
    }
}

/// The directories to show collapsed at first, so that the first drawing of
/// a huge change set stays small.
pub fn collapse_top_dirs_if_large(tree: &Vec<DiffTreeNode>, file_count: usize) -> (r: Vec<String>)
    ensures
        strings_view(r@) == dirs_to_collapse(nodes_view(tree@), file_count as nat),
{
    let mut r: Vec<String> = Vec::new();
    if file_count <= COLLAPSE_FILE_COUNT {
        assert(strings_view(r@) =~= Seq::<Seq<char>>::empty());
        return r;
    }
    let ghost tv = nodes_view(tree@);
    let ghost f = |n: TreeV| match n {
        TreeV::Dir { full_path, .. } => Some(full_path),
        TreeV::File { .. } => None,
    };
    proof {
        lemma_nodes_view(tree@);
    }
    let mut i: usize = 0;
    assert(strings_view(r@) =~= filter_map(tv.take(0), f));
    while i < tree.len()
        invariant
            i <= tree@.len(),
            tv == nodes_view(tree@),
            tv.len() == tree@.len(),
            forall|k: int| 0 <= k < tree@.len() ==> #[trigger] tv[k] == node_view(tree@[k]),
            f == (|n: TreeV| match n {
                TreeV::Dir { full_path, .. } => Some(full_path),
                TreeV::File { .. } => None,
            }),
            strings_view(r@) == filter_map(tv.take(i as int), f),
        decreases tree.len() - i,
    {
        proof {
            lemma_filter_map_take(tv, f, i as int);
        }
        assert(tv[i as int] == node_view(tree@[i as int]));
        match &tree[i] {
            DiffTreeNode::Dir { full_path, .. } => {
                let ghost prev = r@;
                r.push(full_path.clone());
                assert(strings_view(r@) =~= strings_view(prev).push(full_path@));
            },
            DiffTreeNode::File { .. } => {},
        }
        i = i + 1;
    }
    proof {
        lemma_filter_map_all(tv, f);
    }
    r
}


// ---------------------------------------------------------------------------
// Laws

/// The changed files a node holds.
pub open spec fn leaf_files(n: TreeV) -> Multiset<ChangedFileV>
    decreases n, 1nat,
{
    match n {
        TreeV::Dir { children, .. } => leaf_files_all(children),
        TreeV::File { file, .. } => Multiset::singleton(file),
    }
}

/// The changed files a level holds.
pub open spec fn leaf_files_all(s: Seq<TreeV>) -> Multiset<ChangedFileV>
    decreases s, 0nat,
{
    if s.len() == 0 {
        Multiset::empty()
    } else {
        proof {
            assert(decreases_to!(s => s[s.len() - 1]));
            assert(decreases_to!(s => s.subrange(0, s.len() - 1)));
        }
        leaf_files_all(s.subrange(0, s.len() - 1)).add(leaf_files(s[s.len() - 1]))
    }
}

proof fn lemma_leaves_bag(s: Seq<TreeV>)
    ensures
        leaf_files_all(s) == bag_by(s, |n: TreeV| leaf_files(n)),
    decreases s.len(),
{
    if s.len() > 0 {
        lemma_leaves_bag(s.subrange(0, s.len() - 1));
        assert(s.drop_last() == s.subrange(0, s.len() - 1));
    }
}

proof fn lemma_leaves_push(s: Seq<TreeV>, x: TreeV)
    ensures
        leaf_files_all(s.push(x)) == leaf_files_all(s).add(leaf_files(x)),
{
    assert(s.push(x).subrange(0, s.len() as int) =~= s);
    assert(s.push(x)[s.len() as int] == x);
}

proof fn lemma_leaves_update(s: Seq<TreeV>, k: int, x: TreeV)
    requires
        0 <= k < s.len(),
    ensures
        leaf_files_all(s.update(k, x)).add(leaf_files(s[k])) =~= leaf_files_all(s).add(leaf_files(x)),
    decreases s.len(),
{
    broadcast use vstd::multiset::group_multiset_axioms;

    let n = s.len() as int;
    let t = s.subrange(0, n - 1);
    let u = s.update(k, x);
    assert(leaf_files_all(s) == leaf_files_all(t).add(leaf_files(s[n - 1])));
    assert(leaf_files_all(u) == leaf_files_all(u.subrange(0, n - 1)).add(leaf_files(u[n - 1])));
    let lhs = leaf_files_all(u).add(leaf_files(s[k]));
    let rhs = leaf_files_all(s).add(leaf_files(x));
    if k < n - 1 {
        assert(u.subrange(0, n - 1) =~= t.update(k, x));
        lemma_leaves_update(t, k, x);
        assert(t[k] == s[k]);
        assert(u[n - 1] == s[n - 1]);
        let a = leaf_files_all(t.update(k, x)).add(leaf_files(t[k]));
        let b = leaf_files_all(t).add(leaf_files(x));
        assert forall|v: ChangedFileV| #[trigger] lhs.count(v) == rhs.count(v) by {
            assert(a.count(v) == b.count(v));
        }
    } else {
        assert(u.subrange(0, n - 1) =~= t);
        assert(u[n - 1] == x);
        assert forall|v: ChangedFileV| #[trigger] lhs.count(v) == rhs.count(v) by {}
    }
    assert(lhs =~= rhs);
}

proof fn lemma_insert_path_leaves(ns: Seq<TreeV>, parts: Seq<Seq<char>>, idx: int, parent: Seq<char>, file: ChangedFileV)
    requires
        0 <= idx < parts.len(),
    ensures
        leaf_files_all(insert_path(ns, parts, idx, parent, file)) =~= leaf_files_all(ns).insert(file),
    decreases parts.len() - idx,
{
    broadcast use vstd::multiset::group_multiset_axioms;

    if idx + 1 >= parts.len() {
        let leaf = TreeV::File { name: parts[idx], file };
        lemma_leaves_push(ns, leaf);
        assert(leaf_files(leaf) == Multiset::singleton(file));
        assert(insert_path(ns, parts, idx, parent, file) == ns.push(leaf));
    } else {
        let dir = parts[idx];
        let full = child_path(parent, dir);
        lemma_find_dir_from(ns, dir, 0);
        if find_dir_from(ns, dir, 0) is Some {
            let k = find_dir_from(ns, dir, 0)->0;
            let old_dir = ns[k];
            let children = old_dir->Dir_children;
            lemma_insert_path_leaves(children, parts, idx + 1, full, file);
            let nd = TreeV::Dir {
                name: old_dir->Dir_name,
                full_path: old_dir->Dir_full_path,
                children: insert_path(children, parts, idx + 1, full, file),
            };
            assert(insert_path(ns, parts, idx, parent, file) == ns.update(k, nd));
            lemma_leaves_update(ns, k, nd);
            assert(leaf_files(old_dir) == leaf_files_all(children));
            assert(leaf_files(nd) == leaf_files_all(insert_path(children, parts, idx + 1, full, file)));
            let upd = leaf_files_all(ns.update(k, nd));
            let a = upd.add(leaf_files(old_dir));
            let b = leaf_files_all(ns).add(leaf_files(nd));
            let c = leaf_files_all(insert_path(children, parts, idx + 1, full, file));
            let d = leaf_files_all(children).insert(file);
            assert forall|v: ChangedFileV| #[trigger] upd.count(v) == leaf_files_all(ns).insert(file).count(v) by {
                assert(a.count(v) == b.count(v));
                assert(c.count(v) == d.count(v));
            }
            assert(upd =~= leaf_files_all(ns).insert(file));
        } else {
            lemma_insert_path_leaves(Seq::empty(), parts, idx + 1, full, file);
            let nd = TreeV::Dir { name: dir, full_path: full, children: insert_path(Seq::empty(), parts, idx + 1, full, file) };
            assert(insert_path(ns, parts, idx, parent, file) == ns.push(nd));
            lemma_leaves_push(ns, nd);
            assert(leaf_files_all(Seq::<TreeV>::empty()) =~= Multiset::empty());
            assert(leaf_files(nd) == leaf_files_all(insert_path(Seq::empty(), parts, idx + 1, full, file)));
            let c = leaf_files_all(insert_path(Seq::empty(), parts, idx + 1, full, file));
            let r = leaf_files_all(ns.push(nd));
            assert forall|v: ChangedFileV| #[trigger] r.count(v) == leaf_files_all(ns).insert(file).count(v) by {
                assert(c.count(v) == Multiset::<ChangedFileV>::empty().insert(file).count(v));
            }
            assert(r =~= leaf_files_all(ns).insert(file));
        }
    }
}

proof fn lemma_sort_node_leaves(n: TreeV)
    ensures
        leaf_files(sort_node(n)) =~= leaf_files(n),
    decreases n, 2nat,
{
    match n {
        TreeV::Dir { name, full_path, children } => {
            lemma_sort_nodes_leaves(children);
        },
        TreeV::File { .. } => {},
    }
}

proof fn lemma_sort_each_leaves(s: Seq<TreeV>)
    ensures
        leaf_files_all(sort_each(s)) =~= leaf_files_all(s),
    decreases s, 0nat,
{
    broadcast use vstd::multiset::group_multiset_axioms;

    if s.len() > 0 {
        let t = s.subrange(0, s.len() - 1);
        assert(decreases_to!(s => s[s.len() - 1]));
        assert(decreases_to!(s => t));
        lemma_sort_each_leaves(t);
        lemma_sort_node_leaves(s[s.len() - 1]);
        lemma_leaves_push(sort_each(t), sort_node(s[s.len() - 1]));
    }
}

proof fn lemma_sort_nodes_leaves(s: Seq<TreeV>)
    ensures
        leaf_files_all(sort_nodes(s)) =~= leaf_files_all(s),
    decreases s, 1nat,
{
    lemma_sort_each_leaves(s);
    let e = sort_each(s);
    let rel = |a: TreeV, b: TreeV| node_before(a, b);
    lemma_sort_rel_bag(e, rel, |n: TreeV| leaf_files(n));
    lemma_leaves_bag(e);
    lemma_leaves_bag(sort_rel(e, rel));
}

proof fn lemma_insert_files_leaves(files: Seq<ChangedFileV>)
    ensures
        leaf_files_all(insert_files(files)) =~= files.to_multiset(),
    decreases files.len(),
{
    broadcast use vstd::multiset::group_multiset_axioms;
    broadcast use vstd::seq_lib::group_to_multiset_ensures;

    if files.len() == 0 {
        assert(leaf_files_all(Seq::<TreeV>::empty()) =~= Multiset::empty());
        assert(files.to_multiset() =~= Multiset::empty());
    } else {
        lemma_insert_files_leaves(files.drop_last());
        lemma_splitn_nonempty(files.last().path, seq!['/'], None);
        lemma_insert_path_leaves(insert_files(files.drop_last()), path_parts(files.last().path), 0, Seq::empty(), files.last());
        assert(files.drop_last().push(files.last()) =~= files);
    }
}

/// The tree of a comparison holds every changed file exactly as often as
/// the list does: no file is lost or added by grouping and sorting.
pub proof fn lemma_diff_tree_files(files: Seq<ChangedFileV>)
    ensures
        leaf_files_all(diff_tree(files)) =~= files.to_multiset(),
{
    lemma_insert_files_leaves(files);
    lemma_sort_nodes_leaves(insert_files(files));
}

proof fn lemma_merge_chain_leaves(name: Seq<char>, full_path: Seq<char>, children: Seq<TreeV>)
    ensures
        leaf_files(merge_chain(name, full_path, children)) =~= leaf_files_all(children),
    decreases children,
{
    broadcast use vstd::multiset::group_multiset_axioms;

    if children.len() == 1 && children[0] is Dir {
        let c = children[0];
        let cn = c->Dir_name;
        let cfp = c->Dir_full_path;
        let cc = c->Dir_children;
        assert(decreases_to!(children => children[0]));
        assert(decreases_to!(children[0] => cc));
        lemma_merge_chain_leaves(name + seq!['/'] + cn, cfp, cc);
        assert(merge_chain(name, full_path, children) == merge_chain(name + seq!['/'] + cn, cfp, cc));
        assert(children.subrange(0, 0) =~= Seq::<TreeV>::empty());
        assert(leaf_files_all(Seq::<TreeV>::empty()) =~= Multiset::empty());
        assert(leaf_files_all(children) == leaf_files_all(children.subrange(0, 0)).add(leaf_files(c)));
        assert(leaf_files(c) == leaf_files_all(cc));
    } else {
        assert(merge_chain(name, full_path, children) == TreeV::Dir { name, full_path, children });
    }
}

proof fn lemma_compress_node_leaves(n: TreeV)
    ensures
        leaf_files(compress_node(n)) =~= leaf_files(n),
    decreases n, 1nat,
{
    match n {
        TreeV::Dir { name, full_path, children } => {
            lemma_compress_each_leaves(children);
            lemma_merge_chain_leaves(name, full_path, compress_each(children));
        },
        TreeV::File { .. } => {},
    }
}

/// Merging directory chains keeps every file of the tree.
pub proof fn lemma_compress_each_leaves(s: Seq<TreeV>)
    ensures
        leaf_files_all(compress_each(s)) =~= leaf_files_all(s),
    decreases s, 0nat,
{
    broadcast use vstd::multiset::group_multiset_axioms;

    if s.len() > 0 {
        let t = s.subrange(0, s.len() - 1);
        assert(decreases_to!(s => s[s.len() - 1]));
        assert(decreases_to!(s => t));
        lemma_compress_each_leaves(t);
        lemma_compress_node_leaves(s[s.len() - 1]);
        lemma_leaves_push(compress_each(t), compress_node(s[s.len() - 1]));
    }
}


// ---------------------------------------------------------------------------
// How a file of the tree is labelled

/// The label of a file in the tree: its name, and for a renamed file the
/// path it had, as "name (← old)".
pub open spec fn file_label_text(name: Seq<char>, old_path: Option<Seq<char>>) -> Seq<char> {
    match old_path {
        Some(old) => name + " (← "@ + old + ")"@,
        None => name,
    }
}

/// `file_label_text` of a file named `name`.
pub fn file_label(name: &str, file: &ChangedFile) -> (r: String)
    ensures
        r@ == file_label_text(name@, file@.old_path),
{
    match &file.old_path {
        Some(old) => string_of(&concat(&concat(&concat(&chars_of(name), &chars_of(" (← ")), &chars_of(old.as_str())), &chars_of(")"))),
        None => lit(name),
    }
}

/// The counts beside a file: "+added -deleted".
pub open spec fn file_stats_text(additions: nat, deletions: nat) -> Seq<char> {
    "+"@ + decimal(additions) + " -"@ + decimal(deletions)
}

/// `file_stats_text` of a file.
pub fn file_stats(file: &ChangedFile) -> (r: String)
    ensures
        r@ == file_stats_text(file.additions as nat, file.deletions as nat),
{
    let a = decimal_chars(file.additions as u64);
    let d = decimal_chars(file.deletions as u64);
    string_of(&concat(&concat(&concat(&chars_of("+"), &a), &chars_of(" -")), &d))
}


// ---------------------------------------------------------------------------
// The order of every level

/// No node of the level comes, by the tree order (directories first, then
/// by name), before one ahead of it.
pub open spec fn level_ordered(s: Seq<TreeV>) -> bool {
    forall|i: int, j: int| 0 <= i < j < s.len() ==> !node_before(#[trigger] s[j], #[trigger] s[i])
}

/// Every node of the level is ordered at every depth below it.
pub open spec fn each_ordered(s: Seq<TreeV>) -> bool
    decreases s, 0nat,
{
    if s.len() == 0 {
        true
    } else {
        proof {
            assert(decreases_to!(s => s[s.len() - 1]));
            assert(decreases_to!(s => s.subrange(0, s.len() - 1)));
        }
        each_ordered(s.subrange(0, s.len() - 1)) && node_ordered(s[s.len() - 1])
    }
}

/// A file, or a directory whose children are ordered at every depth.
pub open spec fn node_ordered(n: TreeV) -> bool
    decreases n, 1nat,
{
    match n {
        TreeV::Dir { children, .. } => {
            proof {
                assert(decreases_to!(n => children));
            }
            level_ordered(children) && each_ordered(children)
        },
        TreeV::File { .. } => true,
    }
}

proof fn lemma_each_ordered(s: Seq<TreeV>)
    ensures
        each_ordered(s) <==> forall|i: int| 0 <= i < s.len() ==> #[trigger] node_ordered(s[i]),
    decreases s.len(),
{
    if s.len() > 0 {
        let t = s.subrange(0, s.len() - 1);
        lemma_each_ordered(t);
        if each_ordered(s) {
            assert forall|i: int| 0 <= i < s.len() implies #[trigger] node_ordered(s[i]) by {
                if i < s.len() - 1 {
                    assert(t[i] == s[i]);
                }
            }
        }
        if forall|i: int| 0 <= i < s.len() ==> #[trigger] node_ordered(s[i]) {
            assert forall|i: int| 0 <= i < t.len() implies #[trigger] node_ordered(t[i]) by {
                assert(t[i] == s[i]);
            }
            assert(node_ordered(s[s.len() - 1]));
        }
    }
}

proof fn lemma_sort_node_ordered(n: TreeV)
    ensures
        node_ordered(sort_node(n)),
    decreases n, 2nat,
{
    match n {
        TreeV::Dir { name, full_path, children } => {
            lemma_sort_nodes_ordered(children);
        },
        TreeV::File { .. } => {},
    }
}

proof fn lemma_sort_each_ordered(s: Seq<TreeV>)
    ensures
        each_ordered(sort_each(s)),
    decreases s, 0nat,
{
    lemma_sort_each(s);
    assert forall|i: int| 0 <= i < sort_each(s).len() implies #[trigger] node_ordered(sort_each(s)[i]) by {
        assert(decreases_to!(s => s[i]));
        lemma_sort_node_ordered(s[i]);
    }
    lemma_each_ordered(sort_each(s));
}

proof fn lemma_sort_nodes_ordered(s: Seq<TreeV>)
    ensures
        level_ordered(sort_nodes(s)),
        each_ordered(sort_nodes(s)),
    decreases s, 1nat,
{
    lemma_sort_each_ordered(s);
    let e = sort_each(s);
    let rel = |a: TreeV, b: TreeV| node_before(a, b);
    let krel = |a: TreeV, b: TreeV| key_before(tree_key(a), tree_key(b), false);
    assert(rel =~= krel);
    lemma_sort_by_key_sorted(e, |n: TreeV| tree_key(n), false);
    assert(krel =~= |a: TreeV, b: TreeV| key_before((|n: TreeV| tree_key(n))(a), (|n: TreeV| tree_key(n))(b), false));
    let r = sort_rel(e, rel);
    assert(rel_sorted(r, rel));
    lemma_each_ordered(e);
    lemma_sort_rel_all(e, rel, |n: TreeV| node_ordered(n));
    lemma_each_ordered(r);
}

/// The tree of a comparison is ordered at every depth: on each level the
/// directories come before the files, and each group is in ascending order
/// of name.
pub proof fn lemma_diff_tree_ordered(files: Seq<ChangedFileV>)
    ensures
        level_ordered(diff_tree(files)),
        each_ordered(diff_tree(files)),
        forall|i: int, j: int| 0 <= i < j < diff_tree(files).len() && #[trigger] diff_tree(files)[j] is Dir
            ==> #[trigger] diff_tree(files)[i] is Dir,
{
    let t = diff_tree(files);
    lemma_sort_nodes_ordered(insert_files(files));
    assert forall|i: int, j: int| 0 <= i < j < t.len() && #[trigger] t[j] is Dir implies #[trigger] t[i] is Dir by {
        assert(!node_before(t[j], t[i]));
    }
}


// ---------------------------------------------------------------------------
// The shape of every directory

/// Two siblings that are not directories of the same name.
pub open spec fn apart(a: TreeV, b: TreeV) -> bool {
    match (a, b) {
        (TreeV::Dir { name: x, .. }, TreeV::Dir { name: y, .. }) => x != y,
        _ => true,
    }
}

/// Every node of the level is well shaped under the directory path `parent`.
pub open spec fn each_shaped(s: Seq<TreeV>, parent: Seq<char>) -> bool
    decreases s, 0nat,
{
    if s.len() == 0 {
        true
    } else {
        proof {
            assert(decreases_to!(s => s[s.len() - 1]));
            assert(decreases_to!(s => s.subrange(0, s.len() - 1)));
        }
        each_shaped(s.subrange(0, s.len() - 1), parent) && node_shaped(s[s.len() - 1], parent)
    }
}

/// A file, or a directory under `parent` whose path is its name under
/// `parent`, that has at least one child, no two child directories of one
/// name, and children that are well shaped under its own path.
pub open spec fn node_shaped(n: TreeV, parent: Seq<char>) -> bool
    decreases n, 1nat,
{
    match n {
        TreeV::Dir { name, full_path, children } => {
            proof {
                assert(decreases_to!(n => children));
            }
            &&& full_path == child_path(parent, name)
            &&& children.len() > 0
            &&& pairwise(children, |a: TreeV, b: TreeV| apart(a, b))
            &&& each_shaped(children, full_path)
        },
        TreeV::File { .. } => true,
    }
}

proof fn lemma_each_shaped(s: Seq<TreeV>, parent: Seq<char>)
    ensures
        each_shaped(s, parent) <==> forall|i: int| 0 <= i < s.len() ==> #[trigger] node_shaped(s[i], parent),
    decreases s.len(),
{
    if s.len() > 0 {
        let t = s.subrange(0, s.len() - 1);
        lemma_each_shaped(t, parent);
        if each_shaped(s, parent) {
            assert forall|i: int| 0 <= i < s.len() implies #[trigger] node_shaped(s[i], parent) by {
                if i < s.len() - 1 {
                    assert(t[i] == s[i]);
                }
            }
        }
        if forall|i: int| 0 <= i < s.len() ==> #[trigger] node_shaped(s[i], parent) {
            assert forall|i: int| 0 <= i < t.len() implies #[trigger] node_shaped(t[i], parent) by {
                assert(t[i] == s[i]);
            }
            assert(node_shaped(s[s.len() - 1], parent));
        }
    }
}

proof fn lemma_find_dir_none(ns: Seq<TreeV>, name: Seq<char>, i: int)
    requires
        0 <= i,
        find_dir_from(ns, name, i) is None,
    ensures
        forall|k: int| i <= k < ns.len() ==> apart(#[trigger] ns[k], TreeV::Dir { name, full_path: Seq::empty(), children: Seq::empty() }),
    decreases ns.len() - i,
{
    if i < ns.len() {
        lemma_find_dir_none(ns, name, i + 1);
    }
}

proof fn lemma_insert_path_shaped(ns: Seq<TreeV>, parts: Seq<Seq<char>>, idx: int, parent: Seq<char>, file: ChangedFileV)
    requires
        0 <= idx < parts.len(),
        each_shaped(ns, parent),
        pairwise(ns, |a: TreeV, b: TreeV| apart(a, b)),
    ensures
        insert_path(ns, parts, idx, parent, file).len() > 0,
        each_shaped(insert_path(ns, parts, idx, parent, file), parent),
        pairwise(insert_path(ns, parts, idx, parent, file), |a: TreeV, b: TreeV| apart(a, b)),
    decreases parts.len() - idx,
{
    let ap = |a: TreeV, b: TreeV| apart(a, b);
    let r = insert_path(ns, parts, idx, parent, file);
    lemma_each_shaped(ns, parent);
    if idx + 1 >= parts.len() {
        assert forall|i: int, j: int| 0 <= i < r.len() && 0 <= j < r.len() && i != j implies ap(#[trigger] r[i], #[trigger] r[j]) by {
            if i < ns.len() && j < ns.len() {
                assert(r[i] == ns[i] && r[j] == ns[j]);
            }
        }
        assert forall|i: int| 0 <= i < r.len() implies #[trigger] node_shaped(r[i], parent) by {
            if i < ns.len() {
                assert(r[i] == ns[i]);
            }
        }
        lemma_each_shaped(r, parent);
    } else {
        let dir = parts[idx];
        let full = child_path(parent, dir);
        lemma_find_dir_from(ns, dir, 0);
        match find_dir_from(ns, dir, 0) {
            Some(k) => {
                match ns[k] {
                    TreeV::Dir { name, full_path, children } => {
                        assert(node_shaped(ns[k], parent));
                        lemma_insert_path_shaped(children, parts, idx + 1, full, file);
                        let nd = TreeV::Dir { name, full_path, children: insert_path(children, parts, idx + 1, full, file) };
                        assert(node_shaped(nd, parent));
                        assert(r == ns.update(k, nd));
                        assert forall|i: int, j: int| 0 <= i < r.len() && 0 <= j < r.len() && i != j implies ap(#[trigger] r[i], #[trigger] r[j]) by {
                            assert(ap(ns[i], ns[j]));
                        }
                        assert forall|i: int| 0 <= i < r.len() implies #[trigger] node_shaped(r[i], parent) by {
                            if i != k {
                                assert(r[i] == ns[i]);
                            }
                        }
                        lemma_each_shaped(r, parent);
                    },
                    TreeV::File { .. } => {},
                }
            },
            None => {
                lemma_insert_path_shaped(Seq::empty(), parts, idx + 1, full, file);
                let nd = TreeV::Dir { name: dir, full_path: full, children: insert_path(Seq::empty(), parts, idx + 1, full, file) };
                assert(node_shaped(nd, parent));
                assert(r == ns.push(nd));
                lemma_find_dir_none(ns, dir, 0);
                assert forall|i: int, j: int| 0 <= i < r.len() && 0 <= j < r.len() && i != j implies ap(#[trigger] r[i], #[trigger] r[j]) by {
                    if i < ns.len() && j < ns.len() {
                        assert(r[i] == ns[i] && r[j] == ns[j]);
                    } else if i < ns.len() {
                        assert(apart(ns[i], TreeV::Dir { name: dir, full_path: Seq::empty(), children: Seq::empty() }));
                    } else {
                        assert(apart(ns[j], TreeV::Dir { name: dir, full_path: Seq::empty(), children: Seq::empty() }));
                    }
                }
                assert forall|i: int| 0 <= i < r.len() implies #[trigger] node_shaped(r[i], parent) by {
                    if i < ns.len() {
                        assert(r[i] == ns[i]);
                    }
                }
                lemma_each_shaped(r, parent);
            },
        }
    }
}

proof fn lemma_insert_files_shaped(files: Seq<ChangedFileV>)
    ensures
        each_shaped(insert_files(files), Seq::empty()),
        pairwise(insert_files(files), |a: TreeV, b: TreeV| apart(a, b)),
    decreases files.len(),
{
    if files.len() > 0 {
        lemma_insert_files_shaped(files.drop_last());
        lemma_splitn_nonempty(files.last().path, seq!['/'], None);
        lemma_insert_path_shaped(insert_files(files.drop_last()), path_parts(files.last().path), 0, Seq::empty(), files.last());
    }
}

proof fn lemma_sort_node_shaped(n: TreeV, parent: Seq<char>)
    requires
        node_shaped(n, parent),
    ensures
        node_shaped(sort_node(n), parent),
    decreases n, 2nat,
{
    match n {
        TreeV::Dir { name, full_path, children } => {
            lemma_sort_nodes_shaped(children, full_path);
        },
        TreeV::File { .. } => {},
    }
}

proof fn lemma_sort_each_shaped(s: Seq<TreeV>, parent: Seq<char>)
    requires
        each_shaped(s, parent),
        pairwise(s, |a: TreeV, b: TreeV| apart(a, b)),
    ensures
        each_shaped(sort_each(s), parent),
        pairwise(sort_each(s), |a: TreeV, b: TreeV| apart(a, b)),
    decreases s, 0nat,
{
    let ap = |a: TreeV, b: TreeV| apart(a, b);
    lemma_sort_each(s);
    lemma_each_shaped(s, parent);
    let e = sort_each(s);
    assert forall|i: int| 0 <= i < e.len() implies #[trigger] node_shaped(e[i], parent) by {
        assert(decreases_to!(s => s[i]));
        lemma_sort_node_shaped(s[i], parent);
    }
    lemma_each_shaped(e, parent);
    assert forall|i: int, j: int| 0 <= i < e.len() && 0 <= j < e.len() && i != j implies ap(#[trigger] e[i], #[trigger] e[j]) by {
        assert(ap(s[i], s[j]));
    }
}

proof fn lemma_sort_nodes_shaped(s: Seq<TreeV>, parent: Seq<char>)
    requires
        each_shaped(s, parent),
        pairwise(s, |a: TreeV, b: TreeV| apart(a, b)),
    ensures
        sort_nodes(s).len() == s.len(),
        each_shaped(sort_nodes(s), parent),
        pairwise(sort_nodes(s), |a: TreeV, b: TreeV| apart(a, b)),
    decreases s, 1nat,
{
    lemma_sort_each_shaped(s, parent);
    lemma_sort_each(s);
    let e = sort_each(s);
    let rel = |a: TreeV, b: TreeV| node_before(a, b);
    lemma_each_shaped(e, parent);
    lemma_sort_rel_all(e, rel, |n: TreeV| node_shaped(n, parent));
    lemma_sort_rel_pairwise(e, rel, |a: TreeV, b: TreeV| apart(a, b));
    lemma_each_shaped(sort_rel(e, rel), parent);
}

/// Every directory of the tree of a comparison is well formed: its path is
/// its name under its parent's path (the name alone at the top level), it
/// holds at least one node, and no two directories on one level share a
/// name.
pub proof fn lemma_diff_tree_shaped(files: Seq<ChangedFileV>)
    ensures
        each_shaped(diff_tree(files), Seq::empty()),
        pairwise(diff_tree(files), |a: TreeV, b: TreeV| apart(a, b)),
{
    lemma_insert_files_shaped(files);
    lemma_sort_nodes_shaped(insert_files(files), Seq::empty());
}


// ---------------------------------------------------------------------------
// Where each file sits

/// Every node of the level sits under the directory names `prefix`.
pub open spec fn each_placed(s: Seq<TreeV>, prefix: Seq<Seq<char>>) -> bool
    decreases s, 0nat,
{
    if s.len() == 0 {
        true
    } else {
        proof {
            assert(decreases_to!(s => s[s.len() - 1]));
            assert(decreases_to!(s => s.subrange(0, s.len() - 1)));
        }
        each_placed(s.subrange(0, s.len() - 1), prefix) && node_placed(s[s.len() - 1], prefix)
    }
}

/// A file whose path has, as its `/`-separated parts, the directory names
/// `prefix` and then its own name; or a directory whose children sit under
/// `prefix` and its name.
pub open spec fn node_placed(n: TreeV, prefix: Seq<Seq<char>>) -> bool
    decreases n, 1nat,
{
    match n {
        TreeV::Dir { name, children, .. } => {
            proof {
                assert(decreases_to!(n => children));
            }
            each_placed(children, prefix.push(name))
        },
        TreeV::File { name, file } => path_parts(file.path) == prefix.push(name),
    }
}

proof fn lemma_each_placed(s: Seq<TreeV>, prefix: Seq<Seq<char>>)
    ensures
        each_placed(s, prefix) <==> forall|i: int| 0 <= i < s.len() ==> #[trigger] node_placed(s[i], prefix),
    decreases s.len(),
{
    if s.len() > 0 {
        let t = s.subrange(0, s.len() - 1);
        lemma_each_placed(t, prefix);
        if each_placed(s, prefix) {
            assert forall|i: int| 0 <= i < s.len() implies #[trigger] node_placed(s[i], prefix) by {
                if i < s.len() - 1 {
                    assert(t[i] == s[i]);
                }
            }
        }
        if forall|i: int| 0 <= i < s.len() ==> #[trigger] node_placed(s[i], prefix) {
            assert forall|i: int| 0 <= i < t.len() implies #[trigger] node_placed(t[i], prefix) by {
                assert(t[i] == s[i]);
            }
            assert(node_placed(s[s.len() - 1], prefix));
        }
    }
}

proof fn lemma_insert_path_placed(ns: Seq<TreeV>, parts: Seq<Seq<char>>, idx: int, parent: Seq<char>, file: ChangedFileV)
    requires
        0 <= idx < parts.len(),
        parts == path_parts(file.path),
        each_placed(ns, parts.take(idx)),
    ensures
        each_placed(insert_path(ns, parts, idx, parent, file), parts.take(idx)),
    decreases parts.len() - idx,
{
    let pre = parts.take(idx);
    let r = insert_path(ns, parts, idx, parent, file);
    lemma_each_placed(ns, pre);
    assert(parts.take(idx + 1) =~= pre.push(parts[idx]));
    if idx + 1 >= parts.len() {
        assert(parts =~= pre.push(parts[idx]));
        assert forall|i: int| 0 <= i < r.len() implies #[trigger] node_placed(r[i], pre) by {
            if i < ns.len() {
                assert(r[i] == ns[i]);
            }
        }
        lemma_each_placed(r, pre);
    } else {
        let dir = parts[idx];
        let full = child_path(parent, dir);
        lemma_find_dir_from(ns, dir, 0);
        match find_dir_from(ns, dir, 0) {
            Some(k) => {
                match ns[k] {
                    TreeV::Dir { name, full_path, children } => {
                        assert(node_placed(ns[k], pre));
                        lemma_insert_path_placed(children, parts, idx + 1, full, file);
                        let nd = TreeV::Dir { name, full_path, children: insert_path(children, parts, idx + 1, full, file) };
                        assert(node_placed(nd, pre));
                        assert(r == ns.update(k, nd));
                        assert forall|i: int| 0 <= i < r.len() implies #[trigger] node_placed(r[i], pre) by {
                            if i != k {
                                assert(r[i] == ns[i]);
                            }
                        }
                        lemma_each_placed(r, pre);
                    },
                    TreeV::File { .. } => {},
                }
            },
            None => {
                lemma_each_placed(Seq::empty(), parts.take(idx + 1));
                lemma_insert_path_placed(Seq::empty(), parts, idx + 1, full, file);
                let nd = TreeV::Dir { name: dir, full_path: full, children: insert_path(Seq::empty(), parts, idx + 1, full, file) };
                assert(node_placed(nd, pre));
                assert(r == ns.push(nd));
                assert forall|i: int| 0 <= i < r.len() implies #[trigger] node_placed(r[i], pre) by {
                    if i < ns.len() {
                        assert(r[i] == ns[i]);
                    }
                }
                lemma_each_placed(r, pre);
            },
        }
    }
}

proof fn lemma_insert_files_placed(files: Seq<ChangedFileV>)
    ensures
        each_placed(insert_files(files), Seq::empty()),
    decreases files.len(),
{
    if files.len() > 0 {
        lemma_insert_files_placed(files.drop_last());
        let parts = path_parts(files.last().path);
        lemma_splitn_nonempty(files.last().path, seq!['/'], None);
        assert(parts.take(0) =~= Seq::<Seq<char>>::empty());
        lemma_insert_path_placed(insert_files(files.drop_last()), parts, 0, Seq::empty(), files.last());
    }
}

proof fn lemma_sort_node_placed(n: TreeV, prefix: Seq<Seq<char>>)
    requires
        node_placed(n, prefix),
    ensures
        node_placed(sort_node(n), prefix),
    decreases n, 2nat,
{
    match n {
        TreeV::Dir { name, full_path, children } => {
            lemma_sort_nodes_placed(children, prefix.push(name));
        },
        TreeV::File { .. } => {},
    }
}

proof fn lemma_sort_each_placed(s: Seq<TreeV>, prefix: Seq<Seq<char>>)
    requires
        each_placed(s, prefix),
    ensures
        each_placed(sort_each(s), prefix),
    decreases s, 0nat,
{
    lemma_sort_each(s);
    lemma_each_placed(s, prefix);
    let e = sort_each(s);
    assert forall|i: int| 0 <= i < e.len() implies #[trigger] node_placed(e[i], prefix) by {
        assert(decreases_to!(s => s[i]));
        lemma_sort_node_placed(s[i], prefix);
    }
    lemma_each_placed(e, prefix);
}

proof fn lemma_sort_nodes_placed(s: Seq<TreeV>, prefix: Seq<Seq<char>>)
    requires
        each_placed(s, prefix),
    ensures
        each_placed(sort_nodes(s), prefix),
    decreases s, 1nat,
{
    lemma_sort_each_placed(s, prefix);
    let e = sort_each(s);
    let rel = |a: TreeV, b: TreeV| node_before(a, b);
    lemma_each_placed(e, prefix);
    lemma_sort_rel_all(e, rel, |n: TreeV| node_placed(n, prefix));
    lemma_each_placed(sort_rel(e, rel), prefix);
}

/// Every file of the tree of a comparison sits where its path puts it: the
/// `/`-separated parts of its path are the names of the directories from
/// the top down to it, then its own name.
pub proof fn lemma_diff_tree_placed(files: Seq<ChangedFileV>)
    ensures
        each_placed(diff_tree(files), Seq::empty()),
{
    lemma_insert_files_placed(files);
    lemma_sort_nodes_placed(insert_files(files), Seq::empty());
}

} // verus!
