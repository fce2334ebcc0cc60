//! A RAM-backed file system with directories, for the VFS.
use vstd::prelude::*;

use std::collections::BTreeMap;

use crate::driver::fd::{resized, write_at, write_into};
use crate::driver::fs::{copy_bytes, FileData};
use crate::driver::vfs::{FileSystem, VfsDirEntry, VfsError, VfsFileType, VfsMetadata};

verus! {

broadcast use {vstd::laws_cmp::group_laws_cmp, vstd::std_specs::btree::group_btree_axioms};

/// Inode of the root directory.
pub const ROOT_INODE: u64 = 1;

/// A file or directory.
pub struct RamFsNode {
    pub name: String,
    pub data: FileData,
    pub is_dir: bool,
    /// Child inodes, for directories.
    pub children: Vec<u64>,
}

/// A node as plain values.
pub struct NodeView {
    pub name: Seq<char>,
    pub data: Seq<u8>,
    pub is_dir: bool,
    pub children: Seq<u64>,
}

impl View for RamFsNode {
    type V = NodeView;

    open spec fn view(&self) -> NodeView {
        NodeView { name: self.name@, data: self.data.bytes(), is_dir: self.is_dir, children: self.children@ }
    }
}

/// The first of `cs` that is a node named `name`.
pub open spec fn first_match(m: Map<u64, NodeView>, cs: Seq<u64>, name: Seq<char>) -> Option<u64>
    decreases cs.len(),
{
    if cs.len() == 0 {
        None
    } else if m.contains_key(cs[0]) && m[cs[0]].name == name {
        Some(cs[0])
    } else {
        first_match(m, cs.skip(1), name)
    }
}

/// What `first_match` finds is one of `cs`, a node, and named `name`.
pub proof fn lemma_first_match(m: Map<u64, NodeView>, cs: Seq<u64>, name: Seq<char>)
    ensures
        first_match(m, cs, name) matches Some(c) ==> m.contains_key(c) && m[c].name == name && cs.contains(c),
    decreases cs.len(),
{
    if cs.len() > 0 && !(m.contains_key(cs[0]) && m[cs[0]].name == name) {
        lemma_first_match(m, cs.skip(1), name);
        if let Some(c) = first_match(m, cs.skip(1), name) {
            let j = choose|j: int| 0 <= j < cs.skip(1).len() && cs.skip(1)[j] == c;
            assert(cs[j + 1] == c);
        }
    } else if cs.len() > 0 {
        assert(cs[0] == cs[0]);
    }
}

/// No directory of `m` lists two different nodes of the same name.
pub open spec fn names_unique(m: Map<u64, NodeView>) -> bool {
    forall|d: u64, x: u64, y: u64|
        #![trigger m[d].children.contains(x), m[d].children.contains(y)]
        m.contains_key(d) && m[d].children.contains(x) && m[d].children.contains(y) && x != y && m.contains_key(x)
            && m.contains_key(y) ==> m[x].name != m[y].name
}

/// `first_match` finds nothing exactly when no node of `cs` has the name.
proof fn lemma_first_match_none(m: Map<u64, NodeView>, cs: Seq<u64>, name: Seq<char>)
    ensures
        first_match(m, cs, name) is None <==> forall|c: u64|
            cs.contains(c) && m.contains_key(c) ==> #[trigger] m[c].name != name,
    decreases cs.len(),
{
    if cs.len() > 0 {
        lemma_first_match_none(m, cs.skip(1), name);
        assert forall|c: u64| cs.contains(c) && !cs.skip(1).contains(c) implies c == cs[0] by {
            let j = choose|j: int| 0 <= j < cs.len() && cs[j] == c;
            if j > 0 {
                assert(cs.skip(1)[j - 1] == c);
            }
        }
        assert forall|c: u64| cs.skip(1).contains(c) implies cs.contains(c) by {
            let j = choose|j: int| 0 <= j < cs.skip(1).len() && cs.skip(1)[j] == c;
            assert(cs[j + 1] == c);
        }
        assert(cs.contains(cs[0]));
    }
}

/// New data (or size) for a node, its name and children kept, keeps the
/// names unique.
pub proof fn lemma_unique_same_names(m: Map<u64, NodeView>, ino: u64, nv: NodeView)
    requires
        names_unique(m),
        m.contains_key(ino),
        nv.name == m[ino].name,
        nv.children == m[ino].children,
    ensures
        names_unique(m.insert(ino, nv)),
{
    let a = m.insert(ino, nv);
    assert forall|d: u64, x: u64, y: u64|
        #![trigger a[d].children.contains(x), a[d].children.contains(y)]
        a.contains_key(d) && a[d].children.contains(x) && a[d].children.contains(y) && x != y && a.contains_key(x)
            && a.contains_key(y) implies a[x].name != a[y].name by {
        assert(m[d].children.contains(x) && m[d].children.contains(y));
    }
}

/// Creating node `next` named `name` in `dir`, where no child had that
/// name and no list held `next`, keeps the names unique.
pub proof fn lemma_unique_create(m: Map<u64, NodeView>, next: u64, dir: u64, name: Seq<char>, is_dir: bool)
    requires
        names_unique(m),
        !m.contains_key(next),
        m.contains_key(dir),
        child_named(m, dir, name) is None,
        m[dir].is_dir,
        forall|d: u64| #[trigger] m.contains_key(d) ==> !m[d].children.contains(next),
    ensures
        names_unique(
            m.insert(next, NodeView { name, data: Seq::empty(), is_dir, children: Seq::empty() }).insert(
                dir,
                NodeView { children: m[dir].children.push(next), ..m[dir] },
            ),
        ),
{
    let a = m.insert(next, NodeView { name, data: Seq::empty(), is_dir, children: Seq::empty() }).insert(
        dir,
        NodeView { children: m[dir].children.push(next), ..m[dir] },
    );
    lemma_first_match_none(m, m[dir].children, name);
    assert forall|d: u64, x: u64, y: u64|
        #![trigger a[d].children.contains(x), a[d].children.contains(y)]
        a.contains_key(d) && a[d].children.contains(x) && a[d].children.contains(y) && x != y && a.contains_key(x)
            && a.contains_key(y) implies a[x].name != a[y].name by {
        if d == dir {
            let cs = m[dir].children;
            assert(a[d].children == cs.push(next));
            if x == next {
                assert(cs.contains(y)) by {
                    let j = choose|j: int| 0 <= j < cs.push(next).len() && cs.push(next)[j] == y;
                    assert(cs[j] == y);
                }
                assert(m[y].name != name);
            } else if y == next {
                assert(cs.contains(x)) by {
                    let j = choose|j: int| 0 <= j < cs.push(next).len() && cs.push(next)[j] == x;
                    assert(cs[j] == x);
                }
                assert(m[x].name != name);
            } else {
                assert(cs.contains(x)) by {
                    let j = choose|j: int| 0 <= j < cs.push(next).len() && cs.push(next)[j] == x;
                    assert(cs[j] == x);
                }
                assert(cs.contains(y)) by {
                    let j = choose|j: int| 0 <= j < cs.push(next).len() && cs.push(next)[j] == y;
                    assert(cs[j] == y);
                }
                assert(m[d].children.contains(x) && m[d].children.contains(y));
            }
        } else if d == next {
            assert(a[d].children.len() == 0);
        } else {
            assert(m[d].children.contains(x) && m[d].children.contains(y));
        }
    }
}

/// Removing node `ino` and its entry in `dir` keeps the names unique.
pub proof fn lemma_unique_unlink(m: Map<u64, NodeView>, dir: u64, ino: u64)
    requires
        names_unique(m),
        m.contains_key(dir),
    ensures
        names_unique(
            m.insert(dir, NodeView { children: m[dir].children.filter(|c: u64| c != ino), ..m[dir] }).remove(ino),
        ),
{
    let pred = |c: u64| c != ino;
    let a = m.insert(dir, NodeView { children: m[dir].children.filter(pred), ..m[dir] }).remove(ino);
    assert forall|d: u64, x: u64, y: u64|
        #![trigger a[d].children.contains(x), a[d].children.contains(y)]
        a.contains_key(d) && a[d].children.contains(x) && a[d].children.contains(y) && x != y && a.contains_key(x)
            && a.contains_key(y) implies a[x].name != a[y].name by {
        if d == dir {
            m[dir].children.lemma_filter_contains_rev(pred, x);
            m[dir].children.lemma_filter_contains_rev(pred, y);
        }
        assert(m[d].children.contains(x) && m[d].children.contains(y));
    }
}

/// With unique names, after the entry `name` of `dir` was removed no entry
/// of that name is left in `dir`.
pub proof fn lemma_unlink_then_lookup(m: Map<u64, NodeView>, dir: u64, name: Seq<char>, ino: u64)
    requires
        names_unique(m),
        child_named(m, dir, name) == Some(ino),
    ensures
        child_named(
            m.insert(dir, NodeView { children: m[dir].children.filter(|c: u64| c != ino), ..m[dir] }).remove(ino),
            dir,
            name,
        ) is None,
{
    let pred = |c: u64| c != ino;
    let a = m.insert(dir, NodeView { children: m[dir].children.filter(pred), ..m[dir] }).remove(ino);
    lemma_first_match(m, m[dir].children, name);
    if dir != ino {
        lemma_first_match_none(a, a[dir].children, name);
        assert forall|c: u64| a[dir].children.contains(c) && a.contains_key(c) implies #[trigger] a[c].name != name by {
            m[dir].children.lemma_filter_contains_rev(pred, c);
            assert(m[dir].children.contains(c) && m[dir].children.contains(ino));
            assert(c != ino);
        }
    }
}

/// The child named `name` of directory `dir` (the first such).
pub open spec fn child_named(m: Map<u64, NodeView>, dir: u64, name: Seq<char>) -> Option<u64> {
    if m.contains_key(dir) && m[dir].is_dir {
        first_match(m, m[dir].children, name)
    } else {
        None
    }
}

/// The RAM file system: nodes by inode, and the next inode number.
pub struct RamFileSystem {
    nodes: BTreeMap<u64, RamFsNode>,
    next_inode: u64,
}

impl RamFileSystem {
    /// The nodes by inode.
    pub closed spec fn nodes_view(&self) -> Map<u64, NodeView> {
        self.nodes@.map_values(|n: RamFsNode| n@)
    }

    /// The next inode to hand out.
    pub closed spec fn next_spec(&self) -> u64 {
        self.next_inode
    }

    /// The root is a directory and every inode is below the next one.
    pub closed spec fn wf(&self) -> bool {
        &&& self.nodes@.contains_key(ROOT_INODE)
        &&& self.nodes@[ROOT_INODE].is_dir
        &&& self.next_inode >= 2
        &&& forall|k: u64| #[trigger] self.nodes@.contains_key(k) ==> k < self.next_inode
        &&& forall|k: u64, j: int|
            #![trigger self.nodes@[k].children@[j]]
            self.nodes@.contains_key(k) && 0 <= j < self.nodes@[k].children@.len() ==> self.nodes@[k].children@[j] != ROOT_INODE
                && self.nodes@[k].children@[j] < self.next_inode
    }

    /// The nodes' map has the nodes' inodes.
    proof fn lemma_dom(&self)
        ensures
            self.nodes_view().dom() == self.nodes@.dom(),
            forall|k: u64| #[trigger] self.nodes_view().contains_key(k) ==> self.nodes_view()[k] == self.nodes@[k]@,
    {
        assert(self.nodes_view().dom() =~= self.nodes@.dom());
    }

    /// Only the root directory, named "/".
    pub fn new() -> (r: Self)
        ensures
            r.wf(),
            r.nodes_view().dom() == set![ROOT_INODE],
            r.nodes_view()[ROOT_INODE].is_dir,
            r.nodes_view()[ROOT_INODE].children == Seq::<u64>::empty(),
            r.next_spec() == 2,
            names_unique(r.nodes_view()),
    {
        let mut nodes: BTreeMap<u64, RamFsNode> = BTreeMap::new();
        let root = RamFsNode { name: "/".to_owned(), data: FileData::Owned(Vec::new()), is_dir: true, children: Vec::new() };
        nodes.insert(ROOT_INODE, root);
        let r = RamFileSystem { nodes, next_inode: 2 };
        assert(r.nodes_view().dom() =~= set![ROOT_INODE]);
        r
    }

    /// Hands out the next inode number; `None` when they are exhausted.
    fn alloc_inode(&mut self) -> (r: Option<u64>)
        ensures
            old(self).wf() ==> final(self).wf(),
            final(self).nodes == old(self).nodes,
            match r {
                Some(i) => i == old(self).next_inode && final(self).next_inode == i + 1,
                None => old(self).next_inode == u64::MAX && final(self).next_inode == old(self).next_inode,
            },
    {
        if self.next_inode == u64::MAX {
            return None;
        }
        let i = self.next_inode;
        self.next_inode = i + 1;
        Some(i)
    }

    /// The child named `name` of directory `dir` (see `child_named`).
    pub fn find_child_by_name(&self, dir: u64, name: &str) -> (r: Option<u64>)
        ensures
            r == child_named(self.nodes_view(), dir, name@),
    {
        let d = match self.nodes.get(&dir) {
            Some(d) => d,
            None => return None,
        };
        if !d.is_dir {
            return None;
        }
        let ghost m = self.nodes_view();
        let ghost cs = d.children@;
        assert(m.contains_key(dir) && m[dir].children == cs && m[dir].is_dir);
        let n = name.to_owned();
        let mut i: usize = 0;
        assert(cs.skip(0) =~= cs);
        while i < d.children.len()
            invariant
                m == self.nodes_view(),
                cs == d.children@,
                i <= cs.len(),
                first_match(m, cs.skip(i as int), name@) == first_match(m, cs, name@),
                child_named(m, dir, name@) == first_match(m, cs, name@),
                n@ == name@,
            decreases cs.len() - i,
        {
            let c = d.children[i];
            assert(cs.skip(i as int)[0] == c);
            assert(cs.skip(i as int).skip(1) =~= cs.skip(i + 1));
            match self.nodes.get(&c) {
                Some(child) => {
                    if child.name == n {
                        assert(m.contains_key(c) && m[c].name == name@);
                        return Some(c);
                    }
                },
                None => {},
            }
            i = i + 1;
        }
        None
    }

    /// Number of nodes other than the root.
    pub fn file_count(&self) -> (r: usize)
        requires
            self.wf(),
        ensures
            r == self.nodes_view().len() - 1,
    {
        proof {
            assert(self.nodes_view().dom() =~= self.nodes@.dom());
            assert(self.nodes@.dom().finite());
            assert(self.nodes@.dom().contains(ROOT_INODE));
        }
        self.nodes.len() - 1
    }

    /// Takes node `ino` out of the map (to change it).
    fn take_node(&mut self, ino: u64) -> (r: Option<RamFsNode>)
        ensures
            final(self).next_inode == old(self).next_inode,
            final(self).nodes@ == old(self).nodes@.remove(ino),
            match r {
                Some(n) => old(self).nodes@.contains_key(ino) && old(self).nodes@[ino] == n,
                None => !old(self).nodes@.contains_key(ino),
            },
    {
        self.nodes.remove(&ino)
    }

    /// Puts node `ino` into the map.
    fn put_node(&mut self, ino: u64, n: RamFsNode)
        ensures
            final(self).next_inode == old(self).next_inode,
            final(self).nodes@ == old(self).nodes@.insert(ino, n),
    {
        self.nodes.insert(ino, n);
    }

    /// Adds `child` to directory `dir`'s children unless it is there.
    fn add_child(&mut self, dir: u64, child: u64)
        ensures
            old(self).wf() && child != ROOT_INODE && child < old(self).next_inode ==> final(self).wf(),
            final(self).next_inode == old(self).next_inode,
            final(self).nodes@.dom() == old(self).nodes@.dom(),
            forall|k: u64| k != dir && #[trigger] old(self).nodes@.contains_key(k) ==> final(self).nodes@[k] == old(self).nodes@[k],
            old(self).nodes@.contains_key(dir) ==> {
                let d = old(self).nodes@[dir];
                &&& final(self).nodes@[dir].name == d.name
                &&& final(self).nodes@[dir].data == d.data
                &&& final(self).nodes@[dir].is_dir == d.is_dir
                &&& final(self).nodes@[dir].children@ == if d.children@.contains(child) {
                    d.children@
                } else {
                    d.children@.push(child)
                }
            },
    {
        let mut d = match self.take_node(dir) {
            Some(d) => d,
            None => {
                return;
            },
        };
        let mut found = false;
        let mut i: usize = 0;
        while i < d.children.len()
            invariant
                i <= d.children@.len(),
                found <==> exists|j: int| 0 <= j < i && d.children@[j] == child,
            decreases d.children@.len() - i,
        {
            if d.children[i] == child {
                found = true;
            }
            i = i + 1;
        }
        if !found {
            d.children.push(child);
        }
        let ghost dd = d;
        self.put_node(dir, d);
        proof {
            assert(self.nodes@.dom() =~= old(self).nodes@.dom());
            if old(self).wf() && child != ROOT_INODE && child < old(self).next_inode {
                assert forall|k: u64, j: int|
                    self.nodes@.contains_key(k) && 0 <= j < self.nodes@[k].children@.len() implies #[trigger] self.nodes@[k].children@[j] != ROOT_INODE && self.nodes@[k].children@[j] < self.next_inode by {
                    if k == dir {
                        if j < old(self).nodes@[dir].children@.len() {
                            assert(old(self).nodes@[dir].children@[j] == self.nodes@[k].children@[j]);
                        }
                    }
                }
            }
        }
    }

    /// Drops `child` from directory `dir`'s children.
    fn remove_child(&mut self, dir: u64, child: u64)
        ensures
            old(self).wf() ==> final(self).wf(),
            final(self).next_inode == old(self).next_inode,
            final(self).nodes@.dom() == old(self).nodes@.dom(),
            forall|k: u64| k != dir && #[trigger] old(self).nodes@.contains_key(k) ==> final(self).nodes@[k] == old(self).nodes@[k],
            old(self).nodes@.contains_key(dir) ==> {
                let d = old(self).nodes@[dir];
                &&& final(self).nodes@[dir].name == d.name
                &&& final(self).nodes@[dir].data == d.data
                &&& final(self).nodes@[dir].is_dir == d.is_dir
                &&& final(self).nodes@[dir].children@ == d.children@.filter(|c: u64| c != child)
            },
    {
        let mut d = match self.take_node(dir) {
            Some(d) => d,
            None => {
                return;
            },
        };
        let ghost cs = d.children@;
        let ghost pred = |c: u64| c != child;
        let mut kept: Vec<u64> = Vec::new();
        let mut i: usize = 0;
        while i < d.children.len()
            invariant
                cs == d.children@,
                i <= cs.len(),
                pred == (|c: u64| c != child),
                kept@ == cs.take(i as int).filter(pred),
            decreases cs.len() - i,
        {
            let c = d.children[i];
            proof {
                assert(cs.take(i + 1) =~= cs.take(i as int).push(c));
                cs.take(i as int).lemma_filter_push(c, pred);
            }
            if c != child {
                kept.push(c);
            }
            i = i + 1;
        }
        assert(cs.take(cs.len() as int) =~= cs);
        d.children = kept;
        self.put_node(dir, d);
        proof {
            assert(self.nodes@.dom() =~= old(self).nodes@.dom());
            if old(self).wf() {
                assert forall|k: u64, j: int|
                    self.nodes@.contains_key(k) && 0 <= j < self.nodes@[k].children@.len() implies #[trigger] self.nodes@[k].children@[j] != ROOT_INODE && self.nodes@[k].children@[j] < self.next_inode by {
                    if k == dir {
                        broadcast use vstd::seq_lib::group_filter_ensures;

                        let x = self.nodes@[k].children@[j];
                        assert(cs.filter(pred).contains(x));
                        cs.lemma_filter_contains_rev(pred, x);
                    }
                }
            }
        }
    }

    /// Creates node `name` (a directory if `is_dir`) in directory `dir`:
    /// `NotFound` when `dir` does not exist, `NotADirectory` when it is a
    /// file, `AlreadyExists` when it has an entry of that name,
    /// `OutOfMemory` when inode numbers are exhausted.
    pub fn create_node(&mut self, dir: u64, name: &str, is_dir: bool) -> (r: Result<u64, VfsError>)
        ensures
            old(self).wf() ==> final(self).wf(),
            r is Err ==> final(self).next_spec() == old(self).next_spec(),
            old(self).wf() ==> ({
                let m = old(self).nodes_view();
                if !m.contains_key(dir) {
                    r == Err::<u64, VfsError>(VfsError::NotFound) && final(self).nodes_view() == m
                } else if !m[dir].is_dir {
                    r == Err::<u64, VfsError>(VfsError::NotADirectory) && final(self).nodes_view() == m
                } else if child_named(m, dir, name@) is Some {
                    r == Err::<u64, VfsError>(VfsError::AlreadyExists) && final(self).nodes_view() == m
                } else if old(self).next_spec() == u64::MAX {
                    r == Err::<u64, VfsError>(VfsError::OutOfMemory) && final(self).nodes_view() == m
                } else {
                    let ino = old(self).next_spec();
                    &&& r == Ok::<u64, VfsError>(ino)
                    &&& !m.contains_key(ino)
                    &&& final(self).nodes_view() == m.insert(
                        ino,
                        NodeView { name: name@, data: Seq::empty(), is_dir, children: Seq::empty() },
                    ).insert(dir, NodeView { children: m[dir].children.push(ino), ..m[dir] })
                    &&& final(self).next_spec() == ino + 1
                }
            }),
    {
        let is_parent_dir = match self.nodes.get(&dir) {
            Some(p) => p.is_dir,
            None => return Err(VfsError::NotFound),
        };
        if !is_parent_dir {
            return Err(VfsError::NotADirectory);
        }
        if self.find_child_by_name(dir, name).is_some() {
            return Err(VfsError::AlreadyExists);
        }
        let ino = match self.alloc_inode() {
            Some(i) => i,
            None => return Err(VfsError::OutOfMemory),
        };
        let ghost m = old(self).nodes_view();
        let node = RamFsNode { name: name.to_owned(), data: FileData::Owned(Vec::new()), is_dir, children: Vec::new() };
        self.put_node(ino, node);
        proof {
            if old(self).wf() {
                assert(!old(self).nodes@.contains_key(ino));
                assert forall|k: u64| #[trigger] self.nodes@.contains_key(k) implies k < self.next_inode by {}
                assert forall|k: u64, j: int|
                    self.nodes@.contains_key(k) && 0 <= j < self.nodes@[k].children@.len() implies #[trigger] self.nodes@[k].children@[j] != ROOT_INODE && self.nodes@[k].children@[j] < self.next_inode by {
                    if k != ino {
                        assert(old(self).nodes@.contains_key(k));
                    }
                }
            }
        }
        let ghost mid = self.nodes@;
        self.add_child(dir, ino);
        proof {
            if old(self).wf() {
                let d = m[dir];
                assert(!d.children.contains(ino)) by {
                    if d.children.contains(ino) {
                        let j = choose|j: int| 0 <= j < d.children.len() && d.children[j] == ino;
                        assert(old(self).nodes@[dir].children@[j] == ino);
                    }
                }
                assert(self.nodes_view() =~= m.insert(
                    ino,
                    NodeView { name: name@, data: Seq::empty(), is_dir, children: Seq::empty() },
                ).insert(dir, NodeView { children: m[dir].children.push(ino), ..m[dir] }));
            }
        }
        Ok(ino)
    }

    /// Sets the data of the root entry `name` to `data`, creating the file
    /// when there is none. `OutOfMemory` when inode numbers are exhausted.
    pub fn write_static(&mut self, name: &str, data: &'static [u8]) -> (r: Result<(), VfsError>)
        ensures
            old(self).wf() ==> final(self).wf(),
            old(self).wf() ==> final(self).next_spec() == if child_named(old(self).nodes_view(), ROOT_INODE, name@) is Some
                || old(self).next_spec() == u64::MAX {
                old(self).next_spec()
            } else {
                (old(self).next_spec() + 1) as u64
            },
            old(self).wf() ==> ({
                let m = old(self).nodes_view();
                match child_named(m, ROOT_INODE, name@) {
                    Some(ino) => r is Ok && final(self).nodes_view() == m.insert(ino, NodeView { data: data@, ..m[ino] }),
                    None => if old(self).next_spec() == u64::MAX {
                        r == Err::<(), VfsError>(VfsError::OutOfMemory) && final(self).nodes_view() == m
                    } else {
                        let ino = old(self).next_spec();
                        &&& r is Ok
                        &&& final(self).nodes_view() == m.insert(
                            ino,
                            NodeView { name: name@, data: data@, is_dir: false, children: Seq::empty() },
                        ).insert(ROOT_INODE, NodeView { children: m[ROOT_INODE].children.push(ino), ..m[ROOT_INODE] })
                    },
                }
            }),
    {
        proof {
            self.lemma_dom();
            lemma_first_match(self.nodes_view(), self.nodes_view()[ROOT_INODE].children, name@);
        }
        match self.find_child_by_name(ROOT_INODE, name) {
            Some(ino) => {
                let mut n = match self.take_node(ino) {
                    Some(n) => n,
                    None => return Ok(()),
                };
                n.data = FileData::Static(data);
                self.put_node(ino, n);
                proof {
                    assert(self.nodes_view() =~= old(self).nodes_view().insert(ino, NodeView { data: data@, ..old(self).nodes_view()[ino] }));
                    if old(self).wf() {
                        assert forall|k: u64, j: int|
                            self.nodes@.contains_key(k) && 0 <= j < self.nodes@[k].children@.len() implies #[trigger] self.nodes@[k].children@[j] != ROOT_INODE && self.nodes@[k].children@[j] < self.next_inode by {
                            assert(old(self).nodes@.contains_key(k));
                        }
                    }
                }
                Ok(())
            },
            None => {
                let r = self.create_node(ROOT_INODE, name, false);
                proof {
                    self.lemma_dom();
                }
                match r {
                    Ok(ino) => {
                        let ghost mid2 = self.nodes@;
                        let mut n = match self.take_node(ino) {
                            Some(n) => n,
                            None => return Ok(()),
                        };
                        n.data = FileData::Static(data);
                        self.put_node(ino, n);
                        proof {
                            let m = old(self).nodes_view();
                            if old(self).wf() {
                                assert(self.nodes_view() =~= m.insert(
                                    ino,
                                    NodeView { name: name@, data: data@, is_dir: false, children: Seq::empty() },
                                ).insert(ROOT_INODE, NodeView { children: m[ROOT_INODE].children.push(ino), ..m[ROOT_INODE] }));
                                assert forall|k: u64, j: int|
                                    self.nodes@.contains_key(k) && 0 <= j < self.nodes@[k].children@.len() implies #[trigger] self.nodes@[k].children@[j] != ROOT_INODE && self.nodes@[k].children@[j] < self.next_inode by {
                                    if k != ino {
                                        assert(mid2.contains_key(k));
                                        assert(self.nodes@[k] == mid2[k]);
                                    }
                                }
                            }
                        }
                        Ok(())
                    },
                    Err(e) => Err(e),
                }
            },
        }
    }

    /// A RAM file system holding the shell binary as "shell" and as "init".
    pub fn new_initialized(shell: &'static [u8]) -> (r: Self)
        ensures
            r.wf(),
            r.nodes_view().dom() == set![ROOT_INODE, 2u64, 3u64],
            r.nodes_view()[ROOT_INODE].children == seq![2u64, 3u64],
            r.nodes_view()[2] == (NodeView { name: "shell"@, data: shell@, is_dir: false, children: Seq::empty() }),
            r.nodes_view()[3] == (NodeView { name: "init"@, data: shell@, is_dir: false, children: Seq::empty() }),
    {
        let mut fs = Self::new();
        let _ = fs.write_static("shell", shell);
        proof {
            fs.lemma_dom();
            reveal_strlit("shell");
            reveal_strlit("init");
            assert(fs.nodes_view()[ROOT_INODE].children =~= seq![2u64]);
            assert(fs.nodes_view().dom() =~= set![ROOT_INODE, 2u64]);
            assert(first_match(fs.nodes_view(), seq![2u64].skip(1), "init"@) is None);
            assert("shell"@ != "init"@) by {
                assert("shell"@[0] != "init"@[0]);
            }
            assert(fs.nodes_view()[ROOT_INODE].children[0] == 2u64);
            assert(fs.nodes_view()[ROOT_INODE].children.skip(1) =~= seq![2u64].skip(1));
            assert(first_match(fs.nodes_view(), fs.nodes_view()[ROOT_INODE].children, "init"@) is None);
        }
        let ghost m1 = fs.nodes_view();
        assert(fs.next_spec() == 3);
        assert(m1.contains_key(2u64) && m1[2u64].name == "shell"@);
        assert(child_named(fs.nodes_view(), ROOT_INODE, "init"@) is None);
        let _ = fs.write_static("init", shell);
        proof {
            assert(fs.nodes_view() == m1.insert(
                3u64,
                NodeView { name: "init"@, data: shell@, is_dir: false, children: Seq::empty() },
            ).insert(ROOT_INODE, NodeView { children: m1[ROOT_INODE].children.push(3u64), ..m1[ROOT_INODE] }));
            assert(fs.nodes_view().dom() =~= set![ROOT_INODE, 2u64, 3u64]);
            assert(fs.nodes_view()[ROOT_INODE].children =~= seq![2u64, 3u64]);
        }
        fs
    }

}


impl RamFileSystem {
    /// Replaces the data of file `inode` by `f(old data)`; `NotFound` or
    /// `NotAFile` as the node is missing or a directory.
    fn set_data(&mut self, inode: u64, data: Vec<u8>) -> (r: Result<(), VfsError>)
        ensures
            old(self).wf() ==> final(self).wf(),
            final(self).next_spec() == old(self).next_spec(),
            ({
                let m = old(self).nodes_view();
                if !m.contains_key(inode) {
                    r == Err::<(), VfsError>(VfsError::NotFound) && final(self).nodes_view() == m
                } else if m[inode].is_dir {
                    r == Err::<(), VfsError>(VfsError::NotAFile) && final(self).nodes_view() == m
                } else {
                    r is Ok && final(self).nodes_view() == m.insert(inode, NodeView { data: data@, ..m[inode] })
                }
            }),
    {
        proof {
            self.lemma_dom();
        }
        let mut n = match self.take_node(inode) {
            Some(n) => n,
            None => {
                assert(self.nodes@ =~= old(self).nodes@);
                return Err(VfsError::NotFound);
            },
        };
        if n.is_dir {
            self.put_node(inode, n);
            assert(self.nodes@ =~= old(self).nodes@);
            return Err(VfsError::NotAFile);
        }
        n.data = FileData::Owned(data);
        self.put_node(inode, n);
        proof {
            assert(self.nodes_view() =~= old(self).nodes_view().insert(inode, NodeView { data: data@, ..old(self).nodes_view()[inode] }));
            if old(self).wf() {
                assert forall|k: u64, j: int|
                    self.nodes@.contains_key(k) && 0 <= j < self.nodes@[k].children@.len() implies #[trigger] self.nodes@[k].children@[j] != ROOT_INODE && self.nodes@[k].children@[j] < self.next_inode by {
                    assert(old(self).nodes@.contains_key(k));
                }
            }
        }
        Ok(())
    }
}

/// The bytes that a read of `len` bytes at `offset` gets from `c`.
pub open spec fn read_range(c: Seq<u8>, offset: int, len: int) -> Seq<u8> {
    if offset >= c.len() {
        Seq::empty()
    } else {
        let end = if offset + len < c.len() { offset + len } else { c.len() as int };
        c.subrange(offset, end)
    }
}

impl FileSystem for RamFileSystem {
    open spec fn root_spec(&self) -> u64 {
        ROOT_INODE
    }

    open spec fn read_spec(&self, inode: u64, offset: usize, len: nat) -> Result<Seq<u8>, VfsError> {
        let m = self.nodes_view();
        if !m.contains_key(inode) {
            Err(VfsError::NotFound)
        } else if m[inode].is_dir {
            Err(VfsError::NotAFile)
        } else {
            Ok(read_range(m[inode].data, offset as int, len as int))
        }
    }

    open spec fn write_spec(&self, inode: u64, offset: usize, data: Seq<u8>) -> Result<usize, VfsError> {
        let m = self.nodes_view();
        if !m.contains_key(inode) {
            Err(VfsError::NotFound)
        } else if m[inode].is_dir {
            Err(VfsError::NotAFile)
        } else {
            Ok(data.len() as usize)
        }
    }

    open spec fn lookup_spec(&self, dir: u64, name: Seq<char>) -> Result<u64, VfsError> {
        match child_named(self.nodes_view(), dir, name) {
            Some(c) => Ok(c),
            None => Err(VfsError::NotFound),
        }
    }

    open spec fn metadata_spec(&self, inode: u64) -> Result<(VfsFileType, usize, Seq<char>), VfsError> {
        let m = self.nodes_view();
        if !m.contains_key(inode) {
            Err(VfsError::NotFound)
        } else {
            Ok((
                if m[inode].is_dir { VfsFileType::Directory } else { VfsFileType::File },
                m[inode].data.len() as usize,
                m[inode].name,
            ))
        }
    }

    open spec fn readdir_spec(&self, dir: u64, idx: usize) -> Result<Option<(Seq<char>, VfsFileType, usize)>, VfsError> {
        let m = self.nodes_view();
        if !m.contains_key(dir) {
            Err(VfsError::NotFound)
        } else if !m[dir].is_dir {
            Err(VfsError::NotADirectory)
        } else if idx >= m[dir].children.len() {
            Ok(None)
        } else {
            let c = m[dir].children[idx as int];
            if !m.contains_key(c) {
                Err(VfsError::NotFound)
            } else {
                Ok(Some((
                    m[c].name,
                    if m[c].is_dir { VfsFileType::Directory } else { VfsFileType::File },
                    m[c].data.len() as usize,
                )))
            }
        }
    }

    open spec fn fs_inv(&self) -> bool {
        self.wf()
    }

    open spec fn create_spec(&self, dir: u64, name: Seq<char>, is_dir: bool) -> Result<u64, VfsError> {
        create_result(self.nodes_view(), self.next_spec(), dir, name)
    }

    open spec fn unlink_spec(&self, dir: u64, name: Seq<char>) -> Result<(), VfsError> {
        let m = self.nodes_view();
        match child_named(m, dir, name) {
            None => Err(VfsError::NotFound),
            Some(ino) => if m[ino].is_dir && m[ino].children.len() > 0 {
                Err(VfsError::DirectoryNotEmpty)
            } else {
                Ok(())
            },
        }
    }

    open spec fn set_size_spec(&self, inode: u64, size: usize) -> Result<(), VfsError> {
        let m = self.nodes_view();
        if !m.contains_key(inode) {
            Err(VfsError::NotFound)
        } else if m[inode].is_dir {
            Err(VfsError::NotAFile)
        } else {
            Ok(())
        }
    }

    fn name(&self) -> (r: &str)
        ensures
            r@ == "ramfs"@,
    {
        "ramfs"
    }

    fn root_inode(&self) -> (r: u64) {
        ROOT_INODE
    }

    fn lookup(&self, dir: u64, name: &str) -> (r: Result<u64, VfsError>) {
        match self.find_child_by_name(dir, name) {
            Some(c) => Ok(c),
            None => Err(VfsError::NotFound),
        }
    }

    fn metadata(&self, inode: u64) -> (r: Result<VfsMetadata, VfsError>)
        ensures
            match r {
                Ok(md) => self.nodes_view().contains_key(inode) && md.name@ == self.nodes_view()[inode].name
                    && md.size == self.nodes_view()[inode].data.len()
                    && md.file_type == if self.nodes_view()[inode].is_dir { VfsFileType::Directory } else { VfsFileType::File },
                Err(e) => !self.nodes_view().contains_key(inode) && e == VfsError::NotFound,
            },
    {
        proof {
            self.lemma_dom();
        }
        let node = match self.nodes.get(&inode) {
            Some(n) => n,
            None => return Err(VfsError::NotFound),
        };
        Ok(
            VfsMetadata {
                file_type: if node.is_dir { VfsFileType::Directory } else { VfsFileType::File },
                size: node.data.len(),
                name: node.name.clone(),
            },
        )
    }

    fn readdir(&self, dir: u64, idx: usize) -> (r: Result<Option<VfsDirEntry>, VfsError>)
        ensures
            ({
                let m = self.nodes_view();
                if !m.contains_key(dir) {
                    r matches Err(e) && e == VfsError::NotFound
                } else if !m[dir].is_dir {
                    r matches Err(e) && e == VfsError::NotADirectory
                } else if idx >= m[dir].children.len() {
                    r matches Ok(None)
                } else {
                    let c = m[dir].children[idx as int];
                    if !m.contains_key(c) {
                        r matches Err(e) && e == VfsError::NotFound
                    } else {
                        r matches Ok(Some(en)) && en.name@ == m[c].name && en.size == m[c].data.len()
                            && en.file_type == if m[c].is_dir { VfsFileType::Directory } else { VfsFileType::File }
                    }
                }
            }),
    {
        proof {
            self.lemma_dom();
        }
        let node = match self.nodes.get(&dir) {
            Some(n) => n,
            None => return Err(VfsError::NotFound),
        };
        if !node.is_dir {
            return Err(VfsError::NotADirectory);
        }
        if idx >= node.children.len() {
            return Ok(None);
        }
        let child_inode = node.children[idx];
        let child = match self.nodes.get(&child_inode) {
            Some(c) => c,
            None => return Err(VfsError::NotFound),
        };
        Ok(
            Some(
                VfsDirEntry {
                    name: child.name.clone(),
                    file_type: if child.is_dir { VfsFileType::Directory } else { VfsFileType::File },
                    size: child.data.len(),
                },
            ),
        )
    }

    fn read_file(&self, inode: u64, offset: usize, buf: &mut [u8]) -> (r: Result<usize, VfsError>)
        ensures
            ({
                let m = self.nodes_view();
                if !m.contains_key(inode) {
                    r == Err::<usize, VfsError>(VfsError::NotFound) && final(buf)@ == old(buf)@
                } else if m[inode].is_dir {
                    r == Err::<usize, VfsError>(VfsError::NotAFile) && final(buf)@ == old(buf)@
                } else {
                    let got = read_range(m[inode].data, offset as int, old(buf)@.len() as int);
                    &&& r == Ok::<usize, VfsError>(got.len() as usize)
                    &&& final(buf)@ == got + old(buf)@.skip(got.len() as int)
                }
            }),
    {
        proof {
            self.lemma_dom();
        }
        let node = match self.nodes.get(&inode) {
            Some(n) => n,
            None => return Err(VfsError::NotFound),
        };
        if node.is_dir {
            return Err(VfsError::NotAFile);
        }
        let data = node.data.as_slice();
        if offset >= data.len() {
            assert(old(buf)@ =~= Seq::<u8>::empty() + old(buf)@.skip(0));
            return Ok(0);
        }
        let end = if offset + buf.len() < data.len() { offset + buf.len() } else { data.len() };
        let n = end - offset;
        let mut i: usize = 0;
        while i < n
            invariant
                i <= n,
                n == end - offset,
                end <= data@.len(),
                n <= buf@.len(),
                buf@.len() == old(buf)@.len(),
                forall|k: int| 0 <= k < i ==> buf@[k] == data@[offset + k],
                forall|k: int| i <= k < buf@.len() ==> buf@[k] == old(buf)@[k],
            decreases n - i,
        {
            buf[i] = data[offset + i];
            i = i + 1;
        }
        proof {
            let got = read_range(data@, offset as int, old(buf)@.len() as int);
            assert(buf@ =~= got + old(buf)@.skip(got.len() as int));
        }
        Ok(n)
    }

    fn write_file(&mut self, inode: u64, offset: usize, data: &[u8]) -> (r: Result<usize, VfsError>)
        ensures
            old(self).wf() ==> final(self).wf(),
            ({
                let m = old(self).nodes_view();
                if !m.contains_key(inode) {
                    r == Err::<usize, VfsError>(VfsError::NotFound) && final(self).nodes_view() == m
                } else if m[inode].is_dir {
                    r == Err::<usize, VfsError>(VfsError::NotAFile) && final(self).nodes_view() == m
                } else {
                    &&& r == Ok::<usize, VfsError>(data@.len() as usize)
                    &&& final(self).nodes_view() == m.insert(
                        inode,
                        NodeView { data: write_at(m[inode].data, offset as int, data@), ..m[inode] },
                    )
                }
            }),
            names_unique(old(self).nodes_view()) ==> names_unique(final(self).nodes_view()),
            final(self).next_spec() == old(self).next_spec(),
    {
        proof {
            self.lemma_dom();
        }
        let node = match self.nodes.get(&inode) {
            Some(n) => n,
            None => return Err(VfsError::NotFound),
        };
        if node.is_dir {
            return Err(VfsError::NotAFile);
        }
        let mut owned = copy_bytes(node.data.as_slice());
        write_into(&mut owned, offset, data);
        let ghost m = self.nodes_view();
        let res = self.set_data(inode, owned);
        proof {
            if res is Ok && names_unique(m) {
                lemma_unique_same_names(m, inode, self.nodes_view()[inode]);
                assert(self.nodes_view() =~= m.insert(inode, self.nodes_view()[inode]));
            }
        }
        match res {
            Ok(()) => Ok(data.len()),
            Err(e) => Err(e),
        }
    }

    fn create_file(&mut self, dir: u64, name: &str) -> (r: Result<u64, VfsError>)
        ensures
            old(self).wf() ==> final(self).wf(),
            old(self).wf() ==> create_post(old(self).nodes_view(), final(self).nodes_view(), old(self).next_spec(), dir, name@, false, r),
            old(self).wf() && r is Ok ==> !old(self).nodes_view().contains_key(r->Ok_0) && child_named(
                final(self).nodes_view(),
                dir,
                name@,
            ) == Some(r->Ok_0) && final(self).nodes_view().dom() == old(self).nodes_view().dom().insert(r->Ok_0),
            old(self).wf() && names_unique(old(self).nodes_view()) ==> names_unique(final(self).nodes_view()),
            old(self).wf() ==> final(self).next_spec() == if r is Ok {
                (old(self).next_spec() + 1) as u64
            } else {
                old(self).next_spec()
            },
            old(self).wf() && r is Ok ==> r->Ok_0 == old(self).next_spec(),
    {
        proof {
            self.lemma_dom();
        }
        let ghost m = self.nodes_view();
        let ghost next = self.next_spec();
        let r = self.create_node(dir, name, false);
        proof {
            if old(self).wf() && r is Ok {
                assert(m.contains_key(dir));
                assert(dir < next);
                assert(!m.contains_key(next));
                lemma_create_then_lookup(m, self.nodes_view(), next, dir, name@, false, r);
                assert(self.nodes_view().dom() =~= m.dom().insert(next));
                if names_unique(m) {
                    assert forall|d: u64| #[trigger] m.contains_key(d) implies !m[d].children.contains(next) by {
                        if m[d].children.contains(next) {
                            let j = choose|j: int| 0 <= j < m[d].children.len() && m[d].children[j] == next;
                            assert(old(self).nodes@[d].children@[j] < next);
                        }
                    }
                    lemma_unique_create(m, next, dir, name@, false);
                }
            }
        }
        r
    }

    fn create_dir(&mut self, dir: u64, name: &str) -> (r: Result<u64, VfsError>)
        ensures
            old(self).wf() ==> final(self).wf(),
            old(self).wf() ==> create_post(old(self).nodes_view(), final(self).nodes_view(), old(self).next_spec(), dir, name@, true, r),
            old(self).wf() && r is Ok ==> !old(self).nodes_view().contains_key(r->Ok_0) && child_named(
                final(self).nodes_view(),
                dir,
                name@,
            ) == Some(r->Ok_0) && final(self).nodes_view().dom() == old(self).nodes_view().dom().insert(r->Ok_0),
            old(self).wf() && names_unique(old(self).nodes_view()) ==> names_unique(final(self).nodes_view()),
            old(self).wf() ==> final(self).next_spec() == if r is Ok {
                (old(self).next_spec() + 1) as u64
            } else {
                old(self).next_spec()
            },
            old(self).wf() && r is Ok ==> r->Ok_0 == old(self).next_spec(),
    {
        proof {
            self.lemma_dom();
        }
        let ghost m = self.nodes_view();
        let ghost next = self.next_spec();
        let r = self.create_node(dir, name, true);
        proof {
            if old(self).wf() && r is Ok {
                assert(m.contains_key(dir));
                assert(dir < next);
                assert(!m.contains_key(next));
                lemma_create_then_lookup(m, self.nodes_view(), next, dir, name@, true, r);
                assert(self.nodes_view().dom() =~= m.dom().insert(next));
                if names_unique(m) {
                    assert forall|d: u64| #[trigger] m.contains_key(d) implies !m[d].children.contains(next) by {
                        if m[d].children.contains(next) {
                            let j = choose|j: int| 0 <= j < m[d].children.len() && m[d].children[j] == next;
                            assert(old(self).nodes@[d].children@[j] < next);
                        }
                    }
                    lemma_unique_create(m, next, dir, name@, true);
                }
            }
        }
        r
    }

    fn unlink(&mut self, dir: u64, name: &str) -> (r: Result<(), VfsError>)
        ensures
            old(self).wf() ==> final(self).wf(),
            old(self).wf() ==> ({
                let m = old(self).nodes_view();
                match child_named(m, dir, name@) {
                    None => r == Err::<(), VfsError>(VfsError::NotFound) && final(self).nodes_view() == m,
                    Some(ino) => if m[ino].is_dir && m[ino].children.len() > 0 {
                        r == Err::<(), VfsError>(VfsError::DirectoryNotEmpty) && final(self).nodes_view() == m
                    } else {
                        &&& r is Ok
                        &&& final(self).nodes_view() == m.insert(
                            dir,
                            NodeView { children: m[dir].children.filter(|c: u64| c != ino), ..m[dir] },
                        ).remove(ino)
                    },
                }
            }),
            old(self).wf() && names_unique(old(self).nodes_view()) ==> names_unique(final(self).nodes_view()),
            old(self).wf() && names_unique(old(self).nodes_view()) && r is Ok ==> child_named(
                final(self).nodes_view(),
                dir,
                name@,
            ) is None,
            final(self).next_spec() == old(self).next_spec(),
    {
        proof {
            self.lemma_dom();
            lemma_first_match(self.nodes_view(), self.nodes_view()[dir].children, name@);
        }
        let ino = match self.find_child_by_name(dir, name) {
            Some(i) => i,
            None => return Err(VfsError::NotFound),
        };
        let busy = match self.nodes.get(&ino) {
            Some(n) => n.is_dir && n.children.len() > 0,
            None => return Err(VfsError::NotFound),
        };
        if busy {
            return Err(VfsError::DirectoryNotEmpty);
        }
        proof {
            if old(self).wf() {
                let cs = old(self).nodes@[dir].children@;
                let j = choose|j: int| 0 <= j < cs.len() && cs[j] == ino;
                assert(old(self).nodes@[dir].children@[j] != ROOT_INODE);
            }
        }
        self.remove_child(dir, ino);
        let ghost mid = self.nodes@;
        let _ = self.take_node(ino);
        proof {
            if old(self).wf() {
                assert(self.nodes_view() =~= old(self).nodes_view().insert(
                    dir,
                    NodeView { children: old(self).nodes_view()[dir].children.filter(|c: u64| c != ino), ..old(self).nodes_view()[dir] },
                ).remove(ino));
                assert forall|k: u64, j: int|
                    self.nodes@.contains_key(k) && 0 <= j < self.nodes@[k].children@.len() implies #[trigger] self.nodes@[k].children@[j] != ROOT_INODE && self.nodes@[k].children@[j] < self.next_inode by {
                    assert(mid.contains_key(k));
                }
                if names_unique(old(self).nodes_view()) {
                    lemma_unique_unlink(old(self).nodes_view(), dir, ino);
                    lemma_unlink_then_lookup(old(self).nodes_view(), dir, name@, ino);
                }
            }
        }
        Ok(())
    }

    fn set_file_size(&mut self, inode: u64, size: usize) -> (r: Result<(), VfsError>)
        ensures
            old(self).wf() ==> final(self).wf(),
            ({
                let m = old(self).nodes_view();
                if !m.contains_key(inode) {
                    r == Err::<(), VfsError>(VfsError::NotFound) && final(self).nodes_view() == m
                } else if m[inode].is_dir {
                    r == Err::<(), VfsError>(VfsError::NotAFile) && final(self).nodes_view() == m
                } else {
                    r is Ok && final(self).nodes_view() == m.insert(
                        inode,
                        NodeView { data: resized(m[inode].data, size as int), ..m[inode] },
                    )
                }
            }),
            names_unique(old(self).nodes_view()) ==> names_unique(final(self).nodes_view()),
            final(self).next_spec() == old(self).next_spec(),
    {
        proof {
            self.lemma_dom();
        }
        let node = match self.nodes.get(&inode) {
            Some(n) => n,
            None => return Err(VfsError::NotFound),
        };
        if node.is_dir {
            return Err(VfsError::NotAFile);
        }
        let mut owned = copy_bytes(node.data.as_slice());
        let ghost c = owned@;
        owned.resize(size, 0);
        assert(owned@ =~= resized(c, size as int));
        let ghost m = self.nodes_view();
        let r = self.set_data(inode, owned);
        proof {
            if r is Ok {
                let u: () = r->Ok_0;
                assert(r == Ok::<(), VfsError>(u));
                if names_unique(m) {
                    lemma_unique_same_names(m, inode, self.nodes_view()[inode]);
                    assert(self.nodes_view() =~= m.insert(inode, self.nodes_view()[inode]));
                }
            }
        }
        r
    }
}

/// What creating `name` in `dir` answers, for nodes `m` with next inode
/// `next` (see `create_post`).
pub open spec fn create_result(m: Map<u64, NodeView>, next: u64, dir: u64, name: Seq<char>) -> Result<u64, VfsError> {
    if !m.contains_key(dir) {
        Err(VfsError::NotFound)
    } else if !m[dir].is_dir {
        Err(VfsError::NotADirectory)
    } else if child_named(m, dir, name) is Some {
        Err(VfsError::AlreadyExists)
    } else if next == u64::MAX {
        Err(VfsError::OutOfMemory)
    } else {
        Ok(next)
    }
}

/// What `create_file`/`create_dir` of `name` in `dir` do to the nodes `m`
/// with next inode `next` (see `RamFileSystem::create_node`).
pub open spec fn create_post(
    m: Map<u64, NodeView>,
    after: Map<u64, NodeView>,
    next: u64,
    dir: u64,
    name: Seq<char>,
    is_dir: bool,
    r: Result<u64, VfsError>,
) -> bool {
    if !m.contains_key(dir) {
        r == Err::<u64, VfsError>(VfsError::NotFound) && after == m
    } else if !m[dir].is_dir {
        r == Err::<u64, VfsError>(VfsError::NotADirectory) && after == m
    } else if child_named(m, dir, name) is Some {
        r == Err::<u64, VfsError>(VfsError::AlreadyExists) && after == m
    } else if next == u64::MAX {
        r == Err::<u64, VfsError>(VfsError::OutOfMemory) && after == m
    } else {
        &&& r == Ok::<u64, VfsError>(next)
        &&& after == m.insert(
            next,
            NodeView { name, data: Seq::empty(), is_dir, children: Seq::empty() },
        ).insert(dir, NodeView { children: m[dir].children.push(next), ..m[dir] })
    }
}

/// Reading a file where it was just written gives back the bytes written.
pub proof fn lemma_read_after_write(c: Seq<u8>, offset: int, data: Seq<u8>)
    requires
        offset >= 0,
    ensures
        read_range(write_at(c, offset, data), offset, data.len() as int) == data,
{
    let w = write_at(c, offset, data);
    let end = offset + data.len();
    let ext = if end > c.len() { c + crate::driver::fd::zeros((end - c.len()) as nat) } else { c };
    assert(ext.len() >= end);
    assert(w.len() == ext.len());
    if data.len() > 0 {
        assert(read_range(w, offset, data.len() as int) =~= data);
    } else {
        assert(read_range(w, offset, data.len() as int) =~= data);
    }
}

/// A lookup right after creating `name` in a directory finds the new
/// inode.
pub proof fn lemma_create_then_lookup(
    m: Map<u64, NodeView>,
    after: Map<u64, NodeView>,
    next: u64,
    dir: u64,
    name: Seq<char>,
    is_dir: bool,
    r: Result<u64, VfsError>,
)
    requires
        create_post(m, after, next, dir, name, is_dir, r),
        r is Ok,
        next != dir,
    ensures
        child_named(after, dir, name) == Some(next),
{
    let cs = m[dir].children;
    let cs2 = cs.push(next);
    assert(after[dir].children == cs2);
    assert(first_match(m, cs, name) is None);
    lemma_first_match_push(m, after, cs, next, name);
}

proof fn lemma_first_match_push(m: Map<u64, NodeView>, after: Map<u64, NodeView>, cs: Seq<u64>, next: u64, name: Seq<char>)
    requires
        first_match(m, cs, name) is None,
        after.contains_key(next),
        after[next].name == name,
        forall|c: u64| #[trigger] m.contains_key(c) && c != next ==> after.contains_key(c) && after[c].name == m[c].name,
        forall|c: u64| #[trigger] after.contains_key(c) && c != next ==> m.contains_key(c),
    ensures
        first_match(after, cs.push(next), name) == Some(next),
    decreases cs.len(),
{
    if cs.len() > 0 {
        assert(cs.push(next).skip(1) =~= cs.skip(1).push(next));
        if cs[0] == next {
            assert(cs.push(next)[0] == next);
        } else {
            lemma_first_match_push(m, after, cs.skip(1), next, name);
        }
    } else {
        assert(cs.push(next)[0] == next);
    }
}

} // verus!
