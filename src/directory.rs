use vstd::prelude::*;
use vstd::string::*;
use crate::path::{split_path, strings_view};

verus! {

/// Handle of a virtual file interned in a database.
#[derive(Clone, Copy, Debug, PartialEq, Eq, Structural)]
pub struct FileId {
    pub index: usize,
}

/// One directory of a virtual tree: its files by name, and its subdirectories by name,
/// each given as the index of a node of the same tree.
#[derive(Debug)]
pub struct DirNode {
    pub files: Vec<(String, FileId)>,
    pub dirs: Vec<(String, usize)>,
}

/// A tree of in-memory directories, node 0 being the root. Each subdirectory is owned by
/// the one node that names it.
pub struct VirtualDirectory {
    pub nodes: Vec<DirNode>,
    /// The path of each node from the root, as segments.
    pub paths: Ghost<Seq<Seq<Seq<char>>>>,
}

/// Where a crate's modules come from.
pub enum Directory {
    /// A directory on disk, by its absolute path.
    Real(String),
    /// A tree that lives only in memory.
    Virtual(VirtualDirectory),
}

pub open spec fn count_files(nodes: Seq<DirNode>) -> nat
    decreases nodes.len(),
{
    if nodes.len() == 0 {
        0
    } else {
        count_files(nodes.drop_last()) + nodes.last().files@.len()
    }
}

pub proof fn lemma_count_update(nodes: Seq<DirNode>, c: int, x: DirNode)
    requires
        0 <= c < nodes.len(),
    ensures
        count_files(nodes.update(c, x)) + nodes[c].files@.len() == count_files(nodes) + x.files@.len(),
    decreases nodes.len(),
{
    let u = nodes.update(c, x);
    if c == nodes.len() - 1 {
        assert(u.drop_last() =~= nodes.drop_last());
    } else {
        assert(u.drop_last() =~= nodes.drop_last().update(c, x));
        lemma_count_update(nodes.drop_last(), c, x);
    }
}

/// Whether `node` holds a file named `name`.
pub open spec fn file_at_node(node: DirNode, name: Seq<char>) -> bool {
    exists|k: int| 0 <= k < node.files@.len() && (#[trigger] node.files@[k]).0@ == name
}

impl VirtualDirectory {
    pub open spec fn wf(&self) -> bool {
        &&& self.nodes@.len() >= 1
        &&& self.paths@.len() == self.nodes@.len()
        &&& self.paths@[0] == Seq::<Seq<char>>::empty()
        &&& forall|i: int, k: int|
            0 <= i < self.nodes@.len() && 0 <= k < self.nodes@[i].dirs@.len() ==> {
                let e = #[trigger] self.nodes@[i].dirs@[k];
                e.1 < self.nodes@.len() && self.paths@[e.1 as int] == self.paths@[i].push(e.0@)
            }
    }

    /// The full path of the `k`-th file of node `i`.
    pub open spec fn file_path(&self, i: int, k: int) -> Seq<Seq<char>> {
        self.paths@[i].push(self.nodes@[i].files@[k].0@)
    }

    /// How many files the whole tree holds.
    pub open spec fn file_count(&self) -> nat {
        count_files(self.nodes@)
    }

    /// Every file of the tree stands for one entry of `entries`: it sits at the segments
    /// of that entry's path, and its handle names that entry's content in `db_files`.
    pub open spec fn files_from(
        &self,
        db_files: Seq<(Seq<char>, Seq<char>)>,
        entries: Seq<(Seq<char>, Seq<char>)>,
    ) -> bool {
        forall|i: int, k: int|
            0 <= i < self.nodes@.len() && 0 <= k < self.nodes@[i].files@.len() ==> #[trigger] self.file_from(
                i,
                k,
                db_files,
                entries,
            )
    }

    /// The `k`-th file of node `i` stands for some entry of `entries`.
    pub open spec fn file_from(
        &self,
        i: int,
        k: int,
        db_files: Seq<(Seq<char>, Seq<char>)>,
        entries: Seq<(Seq<char>, Seq<char>)>,
    ) -> bool {
        exists|m: int|
            0 <= m < entries.len() && entry_is_file(
                self.file_path(i, k),
                self.nodes@[i].files@[k],
                db_files,
                #[trigger] entries[m],
            )
    }

    /// Whether the root holds a file named `name`.
    pub open spec fn root_has_file(&self, name: Seq<char>) -> bool {
        file_at_node(self.nodes@[0], name)
    }
}

pub open spec fn entry_is_file(
    full: Seq<Seq<char>>,
    f: (String, FileId),
    db_files: Seq<(Seq<char>, Seq<char>)>,
    entry: (Seq<char>, Seq<char>),
) -> bool {
    &&& full == split_path(entry.0)
    &&& f.1.index < db_files.len()
    &&& db_files[f.1.index as int] == (f.0@, entry.1)
}

impl DirNode {
    pub fn empty() -> (r: DirNode)
        ensures
            r.files@.len() == 0,
            r.dirs@.len() == 0,
    {
        DirNode { files: Vec::new(), dirs: Vec::new() }
    }
}

/// Finds the subdirectory of `node` named `name`.
fn find_dir(node: &DirNode, name: &String) -> (r: Option<usize>)
    ensures
        match r {
            Some(j) => exists|k: int| 0 <= k < node.dirs@.len() && (#[trigger] node.dirs@[k]).0@ == name@
                && node.dirs@[k].1 == j,
            None => forall|k: int| 0 <= k < node.dirs@.len() ==> (#[trigger] node.dirs@[k]).0@ != name@,
        },
{
    let mut k: usize = 0;
    while k < node.dirs.len()
        invariant
            k <= node.dirs@.len(),
            forall|q: int| 0 <= q < k ==> (#[trigger] node.dirs@[q]).0@ != name@,
        decreases node.dirs@.len() - k,
    {
        if node.dirs[k].0 == *name {
            return Some(node.dirs[k].1);
        }
        k = k + 1;
    }
    None
}

/// Whether `node` holds a file named `name`.
pub fn has_file(node: &DirNode, name: &str) -> (r: bool)
    ensures
        r == file_at_node(*node, name@),
{
    let mut k: usize = 0;
    while k < node.files.len()
        invariant
            k <= node.files@.len(),
            forall|q: int| 0 <= q < k ==> (#[trigger] node.files@[q]).0@ != name@,
        decreases node.files@.len() - k,
    {
        if node.files[k].0 == String::from_str(name) {
            return true;
        }
        k = k + 1;
    }
    false
}

impl VirtualDirectory {
    /// A tree with an empty root and nothing else.
    pub fn new() -> (r: VirtualDirectory)
        ensures
            r.wf(),
            r.file_count() == 0,
            r.nodes@.len() == 1,
    {
        let mut nodes: Vec<DirNode> = Vec::new();
        nodes.push(DirNode::empty());
        let ghost root_paths = seq![Seq::<Seq<char>>::empty()];
        let r = VirtualDirectory { nodes, paths: Ghost(root_paths) };
        assert(r.nodes@.drop_last() =~= Seq::<DirNode>::empty());
        assert(r.nodes@.last().files@.len() == 0);
        assert(count_files(r.nodes@.drop_last()) == 0);
        r
    }

    /// Files `file_id` under the segments `segs`, creating the directories on the way.
    /// The caller knows that no file stands at those segments yet.
    pub fn insert_file(&mut self, segs: &Vec<String>, file_id: FileId)
        requires
            old(self).wf(),
            segs@.len() >= 1,
            forall|i: int, k: int|
                0 <= i < old(self).nodes@.len() && 0 <= k < old(self).nodes@[i].files@.len()
                    ==> old(self).file_path(i, k) != strings_view(segs@),
        ensures
            final(self).wf(),
            final(self).file_count() == old(self).file_count() + 1,
            final(self).nodes@.len() >= old(self).nodes@.len(),
            forall|i: int, k: int|
                0 <= i < old(self).nodes@.len() && 0 <= k < old(self).nodes@[i].files@.len() ==> {
                    &&& k < final(self).nodes@[i].files@.len()
                    &&& #[trigger] final(self).nodes@[i].files@[k] == old(self).nodes@[i].files@[k]
                    &&& final(self).paths@[i] == old(self).paths@[i]
                },
            forall|i: int, k: int|
                0 <= i < final(self).nodes@.len() && 0 <= k < final(self).nodes@[i].files@.len()
                    ==> (i < old(self).nodes@.len() && k < old(self).nodes@[i].files@.len()) || (
                    final(self).file_path(i, k) == strings_view(segs@)
                        && #[trigger] final(self).nodes@[i].files@[k] == (segs@.last(), file_id)),
            strings_view(segs@) == seq![segs@[0]@] ==> file_at_node(final(self).nodes@[0], segs@[0]@),
    {
        let ghost old_self = *self;
        let ghost sv = strings_view(segs@);
        let n = segs.len();
        let mut cur: usize = 0;
        let mut s: usize = 0;
        assert(sv.subrange(0, 0) =~= Seq::<Seq<char>>::empty());
        while s + 1 < n
            invariant
                self.wf(),
                n == segs@.len(),
                n >= 1,
                sv == strings_view(segs@),
                s < n,
                s == 0 ==> cur == 0,
                cur < self.nodes@.len(),
                self.paths@[cur as int] == sv.subrange(0, s as int),
                self.nodes@.len() >= old_self.nodes@.len(),
                self.file_count() == old_self.file_count(),
                forall|i: int| 0 <= i < self.nodes@.len() ==> (#[trigger] self.nodes@[i]).files@ == (if i < old_self.nodes@.len() {
                    old_self.nodes@[i].files@
                } else {
                    Seq::<(String, FileId)>::empty()
                }),
                forall|i: int| 0 <= i < old_self.nodes@.len() ==> #[trigger] self.paths@[i] == old_self.paths@[i],
            decreases n - s,
        {
            let found = find_dir(&self.nodes[cur], &segs[s]);
            assert(sv.subrange(0, s + 1) =~= sv.subrange(0, s as int).push(segs@[s as int]@));
            match found {
                Some(j) => {
                    cur = j;
                },
                None => {
                    let ghost before = *self;
                    let j = self.nodes.len();
                    self.nodes.push(DirNode::empty());
                    let ghost new_paths = self.paths@.push(sv.subrange(0, s + 1));
                    self.paths = Ghost(new_paths);
                    let name = segs[s].clone();
                    let ghost mid = self.nodes@;
                    self.nodes[cur].dirs.push((name, j));
                    proof {
                        assert(mid.drop_last() =~= before.nodes@);
                        assert(count_files(mid) == count_files(before.nodes@));
                        lemma_count_update(mid, cur as int, self.nodes@[cur as int]);
                        assert(self.nodes@ =~= mid.update(cur as int, self.nodes@[cur as int]));
                        assert forall|i: int, k: int|
                            0 <= i < self.nodes@.len() && 0 <= k < self.nodes@[i].dirs@.len() implies {
                                let e = #[trigger] self.nodes@[i].dirs@[k];
                                e.1 < self.nodes@.len() && self.paths@[e.1 as int] == self.paths@[i].push(e.0@)
                            } by {
                            if i == cur && k == self.nodes@[i].dirs@.len() - 1 {
                            } else if i < before.nodes@.len() {
                                assert(self.nodes@[i].dirs@[k] == before.nodes@[i].dirs@[k]);
                            }
                        }
                    }
                    cur = j;
                },
            }
            s = s + 1;
        }
        assert(s == n - 1);
        assert(sv.subrange(0, s as int).push(sv[s as int]) =~= sv);
        let ghost before = *self;
        let name = segs[s].clone();
        self.nodes[cur].files.push((name, file_id));
        proof {
            lemma_count_update(before.nodes@, cur as int, self.nodes@[cur as int]);
            assert(self.nodes@ =~= before.nodes@.update(cur as int, self.nodes@[cur as int]));
            assert forall|i: int, k: int|
                0 <= i < self.nodes@.len() && 0 <= k < self.nodes@[i].dirs@.len() implies {
                    let e = #[trigger] self.nodes@[i].dirs@[k];
                    e.1 < self.nodes@.len() && self.paths@[e.1 as int] == self.paths@[i].push(e.0@)
                } by {
                assert(self.nodes@[i].dirs@[k] == before.nodes@[i].dirs@[k]);
            }
            assert forall|i: int, k: int|
                0 <= i < self.nodes@.len() && 0 <= k < self.nodes@[i].files@.len() implies
                    (i < old_self.nodes@.len() && k < old_self.nodes@[i].files@.len()) || (
                    self.file_path(i, k) == strings_view(segs@)
                        && #[trigger] self.nodes@[i].files@[k] == (segs@.last(), file_id)) by {
                if i == cur && k == self.nodes@[i].files@.len() - 1 {
                    assert(self.nodes@[i].files@[k] == (segs@.last(), file_id));
                    assert(self.file_path(i, k) =~= sv);
                } else {
                    assert(self.nodes@[i].files@[k] == before.nodes@[i].files@[k]);
                }
            }
            if sv == seq![segs@[0]@] {
                assert(n == 1);
                assert(self.nodes@[0].files@[self.nodes@[0].files@.len() - 1].0@ == segs@[0]@);
            }
        }
    }
}

} // verus!
