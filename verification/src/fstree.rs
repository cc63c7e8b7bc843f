//! A directory tree as plain data: the snapshot over which discovery, size
//! accounting and parsing are verified.

use vstd::prelude::*;
use vstd::string::*;

verus! {

broadcast use vstd::string::group_string_axioms;

/// One node of a directory snapshot. A symbolic link is always a leaf — the
/// walk that builds a snapshot never follows links — and contributes its own
/// metadata size. A file carries its text where the reader chose to load it.
#[derive(Debug)]
pub enum FsNode {
    File { name: String, size: u64, mtime: u64, content: Option<String> },
    Symlink { name: String, size: u64, mtime: u64 },
    Dir { name: String, mtime: u64, entries: Vec<FsNode> },
}

/// The entry name of a node.
pub open spec fn node_name(n: FsNode) -> Seq<char> {
    match n {
        FsNode::File { name, .. } => name@,
        FsNode::Symlink { name, .. } => name@,
        FsNode::Dir { name, .. } => name@,
    }
}

/// The modification timestamp recorded for a node.
pub open spec fn node_mtime(n: FsNode) -> u64 {
    match n {
        FsNode::File { mtime, .. } => mtime,
        FsNode::Symlink { mtime, .. } => mtime,
        FsNode::Dir { mtime, .. } => mtime,
    }
}

/// The recursive byte size of a node: leaves contribute their recorded size,
/// a directory the sum of its entries.
pub open spec fn node_size(n: FsNode) -> nat
    decreases n,
{
    match n {
        FsNode::File { size, .. } => size as nat,
        FsNode::Symlink { size, .. } => size as nat,
        FsNode::Dir { entries, .. } => size_sum(entries@),
    }
}

/// The summed recursive size of a sequence of nodes.
pub open spec fn size_sum(s: Seq<FsNode>) -> nat
    decreases s,
{
    if s.len() == 0 {
        0
    } else {
        size_sum(s.drop_last()) + node_size(s.last())
    }
}

pub proof fn lemma_size_sum_take_succ(s: Seq<FsNode>, i: int)
    requires
        0 <= i < s.len(),
    ensures
        size_sum(s.take(i + 1)) == size_sum(s.take(i)) + node_size(s[i]),
{
    assert(s.take(i + 1).drop_last() =~= s.take(i));
    assert(s.take(i + 1).last() == s[i]);
}

pub proof fn lemma_size_sum_take_le(s: Seq<FsNode>, i: int)
    requires
        0 <= i <= s.len(),
    ensures
        size_sum(s.take(i)) <= size_sum(s),
    decreases s.len() - i,
{
    if i == s.len() {
        assert(s.take(i) =~= s);
    } else {
        lemma_size_sum_take_succ(s, i);
        lemma_size_sum_take_le(s, i + 1);
    }
}

/// Each element's size is bounded by the sum over the sequence.
pub proof fn lemma_size_sum_elem_le(s: Seq<FsNode>, i: int)
    requires
        0 <= i < s.len(),
    ensures
        node_size(s[i]) <= size_sum(s),
    decreases s.len(),
{
    if i == s.len() - 1 {
    } else {
        lemma_size_sum_elem_le(s.drop_last(), i);
    }
}

/// Two distinct elements' sizes together are bounded by the sum.
pub proof fn lemma_size_sum_two_le(s: Seq<FsNode>, i: int, j: int)
    requires
        0 <= i < s.len(),
        0 <= j < s.len(),
        i != j,
    ensures
        node_size(s[i]) + node_size(s[j]) <= size_sum(s),
    decreases s.len(),
{
    if i == s.len() - 1 {
        lemma_size_sum_elem_le(s.drop_last(), j);
    } else if j == s.len() - 1 {
        lemma_size_sum_elem_le(s.drop_last(), i);
    } else {
        lemma_size_sum_two_le(s.drop_last(), i, j);
    }
}

/// The first entry carrying `name`, or `None`.
pub open spec fn find_entry_spec(entries: Seq<FsNode>, name: Seq<char>) -> Option<FsNode>
    decreases entries,
{
    if entries.len() == 0 {
        None
    } else if node_name(entries[0]) == name {
        Some(entries[0])
    } else {
        find_entry_spec(entries.drop_first(), name)
    }
}

pub proof fn lemma_find_entry_spec_mem(entries: Seq<FsNode>, name: Seq<char>)
    ensures
        match find_entry_spec(entries, name) {
            Some(c) => exists|i: int|
                0 <= i < entries.len() && entries[i] == c && node_name(c) == name,
            None => forall|i: int| 0 <= i < entries.len() ==> node_name(#[trigger] entries[i])
                != name,
        },
    decreases entries,
{
    if entries.len() > 0 && node_name(entries[0]) != name {
        lemma_find_entry_spec_mem(entries.drop_first(), name);
        match find_entry_spec(entries, name) {
            Some(c) => {
                let i = choose|i: int|
                    0 <= i < entries.drop_first().len() && entries.drop_first()[i] == c
                        && node_name(c) == name;
                assert(entries[i + 1] == c);
            },
            None => {
                assert forall|i: int|
                    0 <= i < entries.len() implies node_name(#[trigger] entries[i]) != name by {
                    if i > 0 {
                        assert(entries.drop_first()[i - 1] == entries[i]);
                    }
                }
            },
        }
    } else {
        if entries.len() > 0 && node_name(entries[0]) == name {
            assert(entries[0] == entries[0] && node_name(entries[0]) == name);
        }
    }
}

proof fn lemma_find_entry_spec_skip(entries: Seq<FsNode>, name: Seq<char>, i: int)
    requires
        0 <= i <= entries.len(),
        forall|j: int| 0 <= j < i ==> node_name(#[trigger] entries[j]) != name,
    ensures
        find_entry_spec(entries, name) == find_entry_spec(entries.skip(i), name),
    decreases i,
{
    if i > 0 {
        assert(node_name(entries[0]) != name);
        assert(forall|j: int|
            0 <= j < i - 1 ==> node_name(#[trigger] entries.drop_first()[j]) != name);
        lemma_find_entry_spec_skip(entries.drop_first(), name, i - 1);
        assert(entries.drop_first().skip(i - 1) =~= entries.skip(i));
    } else {
        assert(entries.skip(0) =~= entries);
    }
}

/// A found entry is no larger than the sequence it came from.
pub proof fn lemma_find_entry_size_le(entries: Seq<FsNode>, name: Seq<char>)
    ensures
        match find_entry_spec(entries, name) {
            Some(c) => node_size(c) <= size_sum(entries),
            None => true,
        },
{
    lemma_find_entry_spec_mem(entries, name);
    match find_entry_spec(entries, name) {
        Some(c) => {
            let i = choose|i: int|
                0 <= i < entries.len() && entries[i] == c && node_name(c) == name;
            lemma_size_sum_elem_le(entries, i);
        },
        None => {},
    }
}

impl FsNode {
    /// The entry name of this node.
    pub fn name_str(&self) -> (r: &str)
        ensures
            r@ == node_name(*self),
    {
        match self {
            FsNode::File { name, .. } => name.as_str(),
            FsNode::Symlink { name, .. } => name.as_str(),
            FsNode::Dir { name, .. } => name.as_str(),
        }
    }

    /// The recorded modification timestamp of this node.
    pub fn mtime(&self) -> (r: u64)
        ensures
            r == node_mtime(*self),
    {
        match self {
            FsNode::File { mtime, .. } => *mtime,
            FsNode::Symlink { mtime, .. } => *mtime,
            FsNode::Dir { mtime, .. } => *mtime,
        }
    }

    /// Is this node a directory?
    pub fn is_dir(&self) -> (r: bool)
        ensures
            r == (self is Dir),
    {
        match self {
            FsNode::Dir { .. } => true,
            _ => false,
        }
    }
}

/// No two entries share a name, as in any real directory listing.
pub open spec fn unique_names(es: Seq<FsNode>) -> bool {
    forall|i: int, j: int|
        0 <= i < j < es.len() ==> node_name(#[trigger] es[i]) != node_name(#[trigger] es[j])
}

/// With unique names, looking an entry's own name up finds that entry.
pub proof fn lemma_find_entry_unique(es: Seq<FsNode>, i: int)
    requires
        unique_names(es),
        0 <= i < es.len(),
    ensures
        find_entry_spec(es, node_name(es[i])) == Some(es[i]),
{
    lemma_find_entry_spec_mem(es, node_name(es[i]));
    match find_entry_spec(es, node_name(es[i])) {
        Some(c) => {
            let i0 = choose|i0: int|
                0 <= i0 < es.len() && es[i0] == c && node_name(c) == node_name(es[i]);
            if i0 != i {
                assert(node_name(es[i0]) != node_name(es[i]));
            }
        },
        None => {
            assert(node_name(es[i]) != node_name(es[i]));
        },
    }
}

/// The first entry of `entries` named `name`.
pub fn find_entry<'a>(entries: &'a Vec<FsNode>, name: &str) -> (r: Option<&'a FsNode>)
    ensures
        match r {
            Some(c) => find_entry_spec(entries@, name@) == Some(*c),
            None => find_entry_spec(entries@, name@) is None,
        },
{
    let mut i: usize = 0;
    while i < entries.len()
        invariant
            0 <= i <= entries@.len(),
            forall|j: int| 0 <= j < i ==> node_name(#[trigger] entries@[j]) != name@,
        decreases entries@.len() - i,
    {
        if crate::strutil::eq_str(entries[i].name_str(), name) {
            proof {
                lemma_find_entry_spec_skip(entries@, name@, i as int);
                assert(entries@.skip(i as int)[0] == entries@[i as int]);
            }
            return Some(&entries[i]);
        }
        i = i + 1;
    }
    proof {
        lemma_find_entry_spec_skip(entries@, name@, i as int);
    }
    None
}

/// The environment roots under `path`: every directory whose entries include
/// one named `pyvenv.cfg`, in a self-first walk.
pub open spec fn venv_roots_spec(path: Seq<char>, n: FsNode) -> Seq<Seq<char>>
    decreases n,
{
    match n {
        FsNode::Dir { entries, .. } => {
            let here = if find_entry_spec(entries@, "pyvenv.cfg"@) is Some {
                seq![path]
            } else {
                Seq::<Seq<char>>::empty()
            };
            here + venv_roots_entries(path, entries@)
        },
        _ => Seq::empty(),
    }
}

/// The environment roots found under each node of `es`, in order.
pub open spec fn venv_roots_entries(path: Seq<char>, es: Seq<FsNode>) -> Seq<Seq<char>>
    decreases es,
{
    if es.len() == 0 {
        Seq::empty()
    } else {
        venv_roots_entries(path, es.drop_last()) + venv_roots_spec(
            path + seq!['/'] + node_name(es.last()),
            es.last(),
        )
    }
}

/// Walks a snapshot and collects every directory that holds a `pyvenv.cfg`
/// entry; the directory marked is the entry's parent.
pub fn search_venvs(root: &FsNode, path: &str) -> (r: Vec<String>)
    ensures
        r.deep_view() == venv_roots_spec(path@, *root),
    decreases *root,
{
    let mut r: Vec<String> = Vec::new();
    match root {
        FsNode::Dir { entries, .. } => {
            match find_entry(entries, "pyvenv.cfg") {
                Some(_) => {
                    r.push(path.to_owned());
                },
                None => {},
            }
            let ghost here = if find_entry_spec(entries@, "pyvenv.cfg"@) is Some {
                seq![path@]
            } else {
                Seq::<Seq<char>>::empty()
            };
            assert(r.deep_view() =~= here + venv_roots_entries(path@, entries@.take(0)));
            let mut i: usize = 0;
            while i < entries.len()
                invariant
                    0 <= i <= entries@.len(),
                    *root is Dir && root->Dir_entries == *entries,
                    r.deep_view() == here + venv_roots_entries(path@, entries@.take(i as int)),
                    venv_roots_spec(path@, *root) == here + venv_roots_entries(path@, entries@),
                decreases entries@.len() - i,
            {
                let child = &entries[i];
                let mut child_path = path.to_owned();
                child_path.append("/");
                child_path.append(child.name_str());
                proof {
                    assert(root->Dir_entries == *entries);
                    assert(decreases_to!(*root => root->Dir_entries@[i as int]));
                }
                let mut sub = search_venvs(child, child_path.as_str());
                let prev: Ghost<Seq<Seq<char>>> = Ghost(r.deep_view());
                let sub_view: Ghost<Seq<Seq<char>>> = Ghost(sub.deep_view());
                r.append(&mut sub);
                proof {
                    reveal_strlit("/");
                    assert("/"@ =~= seq!['/']);
                    assert(r.deep_view() =~= prev@ + sub_view@);
                    assert(entries@.take(i + 1).drop_last() =~= entries@.take(i as int));
                    assert(entries@.take(i + 1).last() == entries@[i as int]);
                    assert(child_path@ == path@ + seq!['/'] + node_name(entries@[i as int]));
                    assert(r.deep_view() =~= here + venv_roots_entries(
                        path@,
                        entries@.take(i + 1),
                    ));
                }
                i = i + 1;
            }
            proof {
                assert(entries@.take(entries@.len() as int) =~= entries@);
            }
        },
        _ => {
            assert(r.deep_view() =~= venv_roots_spec(path@, *root));
        },
    }
    r
}

} // verus!
