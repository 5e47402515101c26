//! A snapshot of a directory tree as a plain value.
//!
//! The engine never touches the filesystem.  The caller reads a directory
//! into this model once per run and hands it in; every traversal decision
//! and existence check is then made, and verified, against the snapshot.

use vstd::prelude::*;

verus! {

/// One directory entry of a snapshot.
#[derive(Debug)]
pub struct DirEntry {
    /// The entry's own name (one path component, no separators).
    pub name: String,
    /// What the entry is.
    pub node: FsNode,
}

/// What a directory entry is: a regular file, a symbolic link (of any
/// target), or a directory with its own entries.
#[derive(Debug)]
pub enum FsNode {
    File,
    Symlink,
    Dir(Vec<DirEntry>),
}

/// The node of the first entry of `entries` named `name`, if any.
pub open spec fn child_node(entries: Seq<DirEntry>, name: Seq<char>) -> Option<FsNode>
    decreases entries.len(),
{
    if entries.len() == 0 {
        None
    } else if entries[0].name@ == name {
        Some(entries[0].node)
    } else {
        child_node(entries.drop_first(), name)
    }
}

/// True when a (non-empty) path of component names leads to an entry,
/// of whatever kind, descending only through directories.
pub open spec fn path_exists(entries: Seq<DirEntry>, path: Seq<Seq<char>>) -> bool
    decreases path.len(),
{
    if path.len() == 0 {
        false
    } else {
        match child_node(entries, path[0]) {
            None => false,
            Some(FsNode::Dir(children)) => path.len() == 1 || path_exists(
                children@,
                path.drop_first(),
            ),
            Some(_) => path.len() == 1,
        }
    }
}

/// The names of all entries, in order.
pub open spec fn names_of(entries: Seq<DirEntry>) -> Seq<Seq<char>> {
    entries.map_values(|e: DirEntry| e.name@)
}

/// The names inside the directory entry of `entries` named `dir_name`:
/// empty when there is no such entry or it is not a directory.
pub open spec fn names_under(entries: Seq<DirEntry>, dir_name: Seq<char>) -> Seq<Seq<char>> {
    match child_node(entries, dir_name) {
        Some(FsNode::Dir(children)) => names_of(children@),
        _ => Seq::empty(),
    }
}

/// Looks up the first entry named `name`, returning its index.
fn find_child_index(entries: &Vec<DirEntry>, name: &str) -> (r: Option<usize>)
    ensures
        match r {
            Some(i) => i < entries@.len() && entries@[i as int].name@ == name@ && child_node(
                entries@,
                name@,
            ) == Some(entries@[i as int].node),
            None => child_node(entries@, name@) is None,
        },
{
    let mut i: usize = 0;
    proof {
        assert(entries@.skip(0) =~= entries@);
    }
    while i < entries.len()
        invariant
            i <= entries@.len(),
            forall|j: int| 0 <= j < i ==> entries@[j].name@ != name@,
            child_node(entries@, name@) == child_node(entries@.skip(i as int), name@),
        decreases entries@.len() - i,
    {
        let ghost pre = entries@.skip(i as int);
        if crate::text::str_eq(entries[i].name.as_str(), name) {
            proof {
                assert(pre[0] == entries@[i as int]);
            }
            return Some(i);
        }
        proof {
            assert(pre[0] == entries@[i as int]);
            assert(pre.drop_first() =~= entries@.skip(i + 1));
        }
        i = i + 1;
    }
    proof {
        assert(entries@.skip(i as int) =~= Seq::<DirEntry>::empty());
    }
    None
}

/// Tests whether `path` leads to an entry of the snapshot.
pub fn path_exists_exec(entries: &Vec<DirEntry>, path: &Vec<String>) -> (r: bool)
    ensures
        r == path_exists(entries@, path.deep_view()),
{
    proof {
        assert(path.deep_view().skip(0) =~= path.deep_view());
    }
    path_exists_from(entries, path, 0)
}

fn path_exists_from(entries: &Vec<DirEntry>, path: &Vec<String>, from: usize) -> (r: bool)
    requires
        from <= path@.len(),
    ensures
        r == path_exists(entries@, path.deep_view().skip(from as int)),
    decreases path@.len() - from,
{
    let ghost p = path.deep_view().skip(from as int);
    if from == path.len() {
        proof {
            assert(p.len() == 0);
        }
        return false;
    }
    proof {
        assert(p[0] == path@[from as int]@);
    }
    match find_child_index(entries, path[from].as_str()) {
        None => false,
        Some(i) => {
            match &entries[i] {
                DirEntry { name: _, node: FsNode::Dir(children) } => {
                    if from + 1 == path.len() {
                        true
                    } else {
                        proof {
                            assert(p.drop_first() =~= path.deep_view().skip(from + 1));
                        }
                        path_exists_from(children, path, from + 1)
                    }
                },
                _ => from + 1 == path.len(),
            }
        },
    }
}

/// The names inside the child directory of `entries` named `dir_name`,
/// as fresh `String`s; empty when absent or not a directory.
pub fn child_dir_names(entries: &Vec<DirEntry>, dir_name: &str) -> (r: Vec<String>)
    ensures
        r.deep_view() == names_under(entries@, dir_name@),
{
    let mut r: Vec<String> = Vec::new();
    match find_child_index(entries, dir_name) {
        None => {
            proof {
                assert(r.deep_view() =~= names_under(entries@, dir_name@));
            }
            r
        },
        Some(i) => {
            match &entries[i] {
                DirEntry { name: _, node: FsNode::Dir(children) } => {
                    let mut j: usize = 0;
                    while j < children.len()
                        invariant
                            j <= children@.len(),
                            r@.len() == j,
                            forall|k: int| 0 <= k < j ==> r@[k]@ == children@[k].name@,
                        decreases children@.len() - j,
                    {
                        r.push(children[j].name.clone());
                        j = j + 1;
                    }
                    proof {
                        assert(r.deep_view() =~= names_under(entries@, dir_name@));
                    }
                    r
                },
                _ => {
                    proof {
                        assert(r.deep_view() =~= names_under(entries@, dir_name@));
                    }
                    r
                },
            }
        },
    }
}

} // verus!
