//! A snapshot of a staged directory tree, held as an arena of directory nodes.
use vstd::prelude::*;

verus! {

/// A file of a directory: its name and its size in bytes.
pub struct FileEntry {
    pub name: Vec<u8>,
    pub size: u64,
}

/// A subdirectory of a directory: its name and the index of its node.
pub struct DirEntry {
    pub name: Vec<u8>,
    pub node: usize,
}

/// One directory: its files and its subdirectories.
pub struct DirNode {
    pub files: Vec<FileEntry>,
    pub dirs: Vec<DirEntry>,
}

/// A directory tree; node 0 is its root. A subdirectory's node always comes after
/// its parent's, so the tree has no cycles.
pub struct FileTree {
    pub nodes: Vec<DirNode>,
}

/// The bytes of a list of files.
pub open spec fn files_bytes(fs: Seq<FileEntry>) -> nat
    decreases fs.len(),
{
    if fs.len() == 0 {
        0
    } else {
        (files_bytes(fs.drop_last()) + fs.last().size) as nat
    }
}

/// A node's own weight: one per node.
pub open spec fn node_unit() -> spec_fn(DirNode) -> nat {
    |n: DirNode| 1nat
}

/// A node's own weight: the bytes of its own files.
pub open spec fn node_bytes() -> spec_fn(DirNode) -> nat {
    |n: DirNode| files_bytes(n.files@)
}

/// The weight of the subtree at node `i`: the own weights of all its nodes.
pub open spec fn subtree_weight(ns: Seq<DirNode>, i: int, w: spec_fn(DirNode) -> nat) -> nat
    decreases ns.len() - i, if 0 <= i < ns.len() { ns[i].dirs@.len() + 1 } else { 0 },
{
    if 0 <= i < ns.len() {
        w(ns[i]) + dirs_weight(ns, i, ns[i].dirs@.len() as int, w)
    } else {
        0
    }
}

/// The weight of the first `k` subdirectories of node `i`.
pub open spec fn dirs_weight(ns: Seq<DirNode>, i: int, k: int, w: spec_fn(DirNode) -> nat) -> nat
    decreases ns.len() - i, if k >= 0 { k } else { 0 },
{
    if 0 <= i < ns.len() && 0 < k <= ns[i].dirs@.len() {
        let c = ns[i].dirs@[k - 1].node as int;
        dirs_weight(ns, i, k - 1, w) + if i < c < ns.len() {
            subtree_weight(ns, c, w)
        } else {
            0
        }
    } else {
        0
    }
}

/// The names of a list of files.
pub open spec fn file_names(fs: Seq<FileEntry>) -> Set<Seq<u8>> {
    Set::new(|n: Seq<u8>| exists|k: int| 0 <= k < fs.len() && (#[trigger] fs[k]).name@ == n)
}

/// The names of all files in the subtree at node `i`.
pub open spec fn subtree_names(ns: Seq<DirNode>, i: int) -> Set<Seq<u8>>
    decreases ns.len() - i, if 0 <= i < ns.len() { ns[i].dirs@.len() + 1 } else { 0 },
{
    if 0 <= i < ns.len() {
        file_names(ns[i].files@) + dirs_names(ns, i, ns[i].dirs@.len() as int)
    } else {
        Set::empty()
    }
}

/// The names of all files below the first `k` subdirectories of node `i`.
pub open spec fn dirs_names(ns: Seq<DirNode>, i: int, k: int) -> Set<Seq<u8>>
    decreases ns.len() - i, if k >= 0 { k } else { 0 },
{
    if 0 <= i < ns.len() && 0 < k <= ns[i].dirs@.len() {
        let c = ns[i].dirs@[k - 1].node as int;
        dirs_names(ns, i, k - 1) + if i < c < ns.len() {
            subtree_names(ns, c)
        } else {
            Set::empty()
        }
    } else {
        Set::empty()
    }
}

/// A file seen from a walk: its source directory, its destination directory, its
/// name and its size.
pub type FileAt = (Seq<Seq<u8>>, Seq<Seq<u8>>, Seq<u8>, u64);

/// The files of a list, seen in the given directories.
pub open spec fn own_entries(fs: Seq<FileEntry>, sd: Seq<Seq<u8>>, dd: Seq<Seq<u8>>) -> Set<FileAt> {
    Set::new(
        |e: FileAt|
            e.0 == sd && e.1 == dd && exists|k: int|
                0 <= k < fs.len() && (#[trigger] fs[k]).name@ == e.2 && fs[k].size == e.3,
    )
}

/// The files below node `i`, each seen in the directories that a walk from `sd`
/// and `dd` gives it (a subdirectory's name is added to both).
pub open spec fn subtree_entries(ns: Seq<DirNode>, i: int, sd: Seq<Seq<u8>>, dd: Seq<Seq<u8>>) -> Set<FileAt>
    decreases ns.len() - i, if 0 <= i < ns.len() { ns[i].dirs@.len() + 1 } else { 0 },
{
    if 0 <= i < ns.len() {
        own_entries(ns[i].files@, sd, dd) + dirs_entries(ns, i, ns[i].dirs@.len() as int, sd, dd)
    } else {
        Set::empty()
    }
}

/// The files below the first `k` subdirectories of node `i`.
pub open spec fn dirs_entries(ns: Seq<DirNode>, i: int, k: int, sd: Seq<Seq<u8>>, dd: Seq<Seq<u8>>) -> Set<FileAt>
    decreases ns.len() - i, if k >= 0 { k } else { 0 },
{
    if 0 <= i < ns.len() && 0 < k <= ns[i].dirs@.len() {
        let c = ns[i].dirs@[k - 1].node as int;
        let n = ns[i].dirs@[k - 1].name@;
        dirs_entries(ns, i, k - 1, sd, dd) + if i < c < ns.len() {
            subtree_entries(ns, c, sd.push(n), dd.push(n))
        } else {
            Set::empty()
        }
    } else {
        Set::empty()
    }
}

/// The subdirectory named `name` of node `i`, if there is one.
pub open spec fn child_named(ns: Seq<DirNode>, i: int, name: Seq<u8>) -> Option<usize> {
    if 0 <= i < ns.len() && exists|k: int|
        0 <= k < ns[i].dirs@.len() && (#[trigger] ns[i].dirs@[k]).name@ == name {
        let k = choose|k: int| 0 <= k < ns[i].dirs@.len() && (#[trigger] ns[i].dirs@[k]).name@ == name;
        Some(ns[i].dirs@[k].node)
    } else {
        None
    }
}

/// Where a path of directory names leads from node `i`.
pub open spec fn lookup(ns: Seq<DirNode>, i: int, path: Seq<Seq<u8>>) -> Option<usize>
    decreases path.len(),
{
    if path.len() == 0 {
        if 0 <= i < ns.len() {
            Some(i as usize)
        } else {
            None
        }
    } else {
        match child_named(ns, i, path[0]) {
            Some(c) => lookup(ns, c as int, path.drop_first()),
            None => None,
        }
    }
}

/// A path that leads somewhere leads to a node of the tree.
pub proof fn lemma_lookup_in_range(t: &FileTree, i: int, path: Seq<Seq<u8>>)
    requires
        t.wf(),
    ensures
        lookup(t.nodes@, i, path) matches Some(n) ==> n < t.nodes@.len(),
    decreases path.len(),
{
    if path.len() > 0 {
        match child_named(t.nodes@, i, path[0]) {
            Some(c) => lemma_lookup_in_range(t, c as int, path.drop_first()),
            None => {},
        }
    }
}

impl FileTree {
    /// There is a root; every subdirectory's node exists and comes after its
    /// parent's, and the names of one directory's subdirectories are unique.
    pub open spec fn wf(&self) -> bool {
        let ns = self.nodes@;
        &&& ns.len() >= 1
        &&& forall|i: int, k: int|
            0 <= i < ns.len() && 0 <= k < ns[i].dirs@.len() ==> i < (#[trigger] ns[i].dirs@[k]).node
                < ns.len()
        &&& forall|i: int, k1: int, k2: int|
            0 <= i < ns.len() && 0 <= k1 < k2 < ns[i].dirs@.len() ==> (#[trigger] ns[i].dirs@[k1]).name@
                != (#[trigger] ns[i].dirs@[k2]).name@
    }

    /// Node `i`'s subdirectories are well formed: each comes after it and exists,
    /// and their names are unique.
    pub open spec fn node_ok(&self, i: int) -> bool {
        let ns = self.nodes@;
        &&& forall|k: int| 0 <= k < ns[i].dirs@.len() ==> i < (#[trigger] ns[i].dirs@[k]).node < ns.len()
        &&& forall|k1: int, k2: int|
            0 <= k1 < k2 < ns[i].dirs@.len() ==> (#[trigger] ns[i].dirs@[k1]).name@
                != (#[trigger] ns[i].dirs@[k2]).name@
    }

    fn check_node(&self, i: usize) -> (r: bool)
        requires
            i < self.nodes@.len(),
        ensures
            r == self.node_ok(i as int),
    {
        let ghost ns = self.nodes@;
        let dirs = &self.nodes[i].dirs;
        let mut k: usize = 0;
        while k < dirs.len()
            invariant
                k <= dirs@.len(),
                dirs == ns[i as int].dirs,
                ns == self.nodes@,
                i < ns.len(),
                forall|a: int| 0 <= a < k ==> i < (#[trigger] dirs@[a]).node < ns.len(),
                forall|a: int, b: int| 0 <= a < b < k ==> (#[trigger] dirs@[a]).name@ != (#[trigger] dirs@[b]).name@,
            decreases dirs.len() - k,
        {
            if dirs[k].node <= i || dirs[k].node >= self.nodes.len() {
                return false;
            }
            let mut a: usize = 0;
            while a < k
                invariant
                    a <= k < dirs@.len(),
                    i < ns.len(),
                    ns == self.nodes@,
                    dirs == ns[i as int].dirs,
                    forall|c: int| 0 <= c < a ==> (#[trigger] dirs@[c]).name@ != dirs@[k as int].name@,
                decreases k - a,
            {
                if crate::names::bytes_eq(&dirs[a].name, &dirs[k].name) {
                    assert(ns[i as int].dirs@[a as int].name@ == ns[i as int].dirs@[k as int].name@);
                    return false;
                }
                a = a + 1;
            }
            k = k + 1;
        }
        true
    }

    /// Whether the tree is well formed.
    pub fn is_wf(&self) -> (r: bool)
        ensures
            r == self.wf(),
    {
        if self.nodes.len() == 0 {
            return false;
        }
        let mut i: usize = 0;
        while i < self.nodes.len()
            invariant
                i <= self.nodes@.len(),
                forall|j: int| 0 <= j < i ==> self.node_ok(j),
            decreases self.nodes.len() - i,
        {
            if !self.check_node(i) {
                assert(!self.wf()) by {
                    if self.wf() {
                        assert(self.node_ok(i as int));
                    }
                }
                return false;
            }
            i = i + 1;
        }
        assert(self.wf()) by {
            let ns = self.nodes@;
            assert forall|j: int, k: int|
                0 <= j < ns.len() && 0 <= k < ns[j].dirs@.len() implies j < (#[trigger] ns[j].dirs@[k]).node
                    < ns.len() by {
                assert(self.node_ok(j));
            }
            assert forall|j: int, k1: int, k2: int|
                0 <= j < ns.len() && 0 <= k1 < k2 < ns[j].dirs@.len() implies (#[trigger] ns[j].dirs@[k1]).name@
                    != (#[trigger] ns[j].dirs@[k2]).name@ by {
                assert(self.node_ok(j));
            }
        }
        true
    }

    /// The bytes of all files below node `i`, itself included.
    pub open spec fn bytes_below(&self, i: int) -> nat {
        subtree_weight(self.nodes@, i, node_bytes())
    }

    /// Follows a path of directory names from node `start`.
    pub fn subtree(&self, start: usize, path: &Vec<Vec<u8>>) -> (r: Option<usize>)
        requires
            self.wf(),
            start < self.nodes@.len(),
        ensures
            r == lookup(self.nodes@, start as int, crate::registry::path_view(path@)),
    {
        let ghost ns = self.nodes@;
        let ghost full = crate::registry::path_view(path@);
        let mut cur: usize = start;
        let mut j: usize = 0;
        assert(full.subrange(0, full.len() as int) =~= full);
        while j < path.len()
            invariant
                self.wf(),
                ns == self.nodes@,
                full == crate::registry::path_view(path@),
                j <= path.len(),
                cur < ns.len(),
                lookup(ns, start as int, full) == lookup(ns, cur as int, full.subrange(
                    j as int,
                    full.len() as int,
                )),
            decreases path.len() - j,
        {
            let seg = &path[j];
            let node = &self.nodes[cur];
            let mut k: usize = 0;
            let mut found: Option<usize> = None;
            while k < node.dirs.len() && found.is_none()
                invariant
                    k <= node.dirs@.len(),
                    cur < ns.len(),
                    j < path.len(),
                    seg == path@[j as int],
                    node == ns[cur as int],
                    found.is_none() ==> forall|m: int|
                        0 <= m < k ==> (#[trigger] node.dirs@[m]).name@ != seg@,
                    found.is_some() ==> exists|m: int|
                        0 <= m < node.dirs@.len() && (#[trigger] node.dirs@[m]).name@ == seg@
                            && node.dirs@[m].node == found.unwrap(),
                decreases node.dirs.len() - k, if found.is_none() { 1int } else { 0int },
            {
                if crate::names::bytes_eq(&node.dirs[k].name, seg) {
                    found = Some(node.dirs[k].node);
                } else {
                    k = k + 1;
                }
            }
            let ghost rest = full.subrange(j as int, full.len() as int);
            assert(rest[0] == seg@);
            assert(rest.drop_first() =~= full.subrange(j + 1, full.len() as int));
            match found {
                None => {
                    assert(child_named(ns, cur as int, seg@) is None);
                    return None;
                },
                Some(c) => {
                    let ghost m = choose|m: int|
                        0 <= m < node.dirs@.len() && (#[trigger] node.dirs@[m]).name@ == seg@
                            && node.dirs@[m].node == c;
                    let ghost m2 = choose|k: int|
                        0 <= k < ns[cur as int].dirs@.len() && (#[trigger] ns[cur as int].dirs@[k]).name@
                            == seg@;
                    assert(m == m2) by {
                        if m < m2 {
                            assert(node.dirs@[m].name@ != node.dirs@[m2].name@);
                        } else if m2 < m {
                            assert(node.dirs@[m2].name@ != node.dirs@[m].name@);
                        }
                    }
                    assert(child_named(ns, cur as int, seg@) == Some(c));
                    cur = c;
                },
            }
            j = j + 1;
        }
        assert(full.subrange(j as int, full.len() as int).len() == 0);
        Some(cur)
    }
}

} // verus!
