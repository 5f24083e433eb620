//! The in-memory namespace: a store of nodes keyed by canonical path, and a
//! counter that hands out handle ids.

use crate::backends::memory::model::{
    describes_child, handle_matches, has_children, lemma_listing_complete,
    lemma_listing_distinct, lemma_listing_sound, names_view, namespace_ok, qid_matches,
    qid_path_of, read_range, stat_matches, str_hash_input, walk_paths, write_range,
};
use crate::backends::memory::node::{now, Node, NodeView};
use crate::error::{VfsError, VfsResult};
use crate::path::{
    chars_of, has_pair_in, is_canonical, is_child, is_root, join_path, leaf_name_of,
    lemma_normalize_canonical, lemma_trim_end_at, lemma_trim_start_at, normalize, parent_of,
    parent_path, root_path, valid_name,
};
use crate::types::{
    CanRead, CanWrite, Dir, File, FileHandle, NodeKind, ObjectKind, Qid, ReadOnly, Stat, WalkResult,
};
use std::collections::hash_map::DefaultHasher;
use std::hash::{Hash, Hasher};
use vstd::prelude::*;

verus! {

/// Relies on `<str as Hash>::hash`: what it feeds the hasher depends on the
/// characters of the string alone.
#[verifier::external_body]
fn hash_str(s: &str, h: &mut DefaultHasher)
    ensures
        final(h)@ == old(h)@ + str_hash_input(s@),
{
    s.hash(h)
}

struct Entry {
    path: String,
    node: Node,
}

/// An in-memory filesystem.
pub struct VfsMem {
    entries: Vec<Entry>,
    next_fid: u64,
    nodes: Ghost<Map<Seq<char>, NodeView>>,
}

impl View for VfsMem {
    type V = Map<Seq<char>, NodeView>;

    /// The namespace: each canonical path present, with its node.
    closed spec fn view(&self) -> Map<Seq<char>, NodeView> {
        self.nodes@
    }
}

impl VfsMem {
    /// The id that the next `open` or `create` hands out.
    pub closed spec fn fid_counter(&self) -> u64 {
        self.next_fid
    }

    /// Each path is stored once, the entries agree with the namespace
    /// model, the model satisfies the namespace invariant, and handle ids
    /// start at 1.
    pub closed spec fn wf(&self) -> bool {
        let m = self.nodes@;
        &&& forall|i: int, j: int|
            0 <= i < self.entries.len() && 0 <= j < self.entries.len() && i != j
                ==> self.entries[i].path@ != self.entries[j].path@
        &&& forall|i: int|
            0 <= i < self.entries.len() ==> m.contains_key(#[trigger] self.entries[i].path@)
                && m[self.entries[i].path@] == self.entries[i].node@
        &&& forall|k: Seq<char>|
            #[trigger] m.contains_key(k) ==> exists|i: int|
                0 <= i < self.entries.len() && #[trigger] self.entries[i].path@ == k
        &&& namespace_ok(m)
        &&& self.next_fid >= 1
    }

    /// A well-formed filesystem satisfies the namespace invariant.
    pub proof fn lemma_namespace_ok(&self)
        requires
            self.wf(),
        ensures
            namespace_ok(self@),
    {
    }

    /// The root is always present and is a directory, and `/` normalizes to
    /// itself: so `stat("/")` always succeeds, and `remove("/")` is always
    /// refused.
    pub proof fn lemma_root_always_present(&self)
        requires
            self.wf(),
        ensures
            self@.contains_key(root_path()),
            self@[root_path()].kind() == NodeKind::Dir,
            normalize(root_path()) == Some(root_path()),
    {
    }

    /// A filesystem that holds only the root directory.
    pub fn new() -> (r: Self)
        ensures
            r.wf(),
            r@.dom() == set![root_path()],
            r@[root_path()].kind() == NodeKind::Dir,
            r.fid_counter() == 1,
    {
        proof {
            reveal_strlit("/");
            assert("/"@ =~= root_path());
        }
        let node = Node::new_dir();
        let ghost m = Map::<Seq<char>, NodeView>::empty().insert(root_path(), node@);
        let mut entries: Vec<Entry> = Vec::new();
        entries.push(Entry { path: String::from_str("/"), node });
        let r = VfsMem { entries, next_fid: 1, nodes: Ghost(m) };
        assert(r@.dom() =~= set![root_path()]);
        assert(r.entries[0].path@ == root_path());
        assert(is_canonical(root_path()));
        assert forall|k: Seq<char>| #[trigger] r@.contains_key(k) implies exists|i: int|
            0 <= i < r.entries.len() && #[trigger] r.entries[i].path@ == k by {
            assert(r.entries[0].path@ == k);
        }
        r
    }

    /// Index of the entry stored at `p`.
    fn find(&self, p: &String) -> (r: Option<usize>)
        requires
            self.wf(),
        ensures
            match r {
                Some(i) => {
                    &&& i < self.entries.len()
                    &&& self.entries[i as int].path@ == p@
                    &&& self@.contains_key(p@)
                    &&& self@[p@] == self.entries[i as int].node@
                },
                None => !self@.contains_key(p@),
            },
    {
        let mut i: usize = 0;
        while i < self.entries.len()
            invariant
                self.wf(),
                i <= self.entries.len(),
                forall|j: int| 0 <= j < i ==> self.entries[j].path@ != p@,
            decreases self.entries.len() - i,
        {
            if self.entries[i].path == *p {
                return Some(i);
            }
            i = i + 1;
        }
        proof {
            if self@.contains_key(p@) {
                let j = choose|j: int| 0 <= j < self.entries.len() && #[trigger] self.entries[j].path@ == p@;
                assert(self.entries[j].path@ == p@);
            }
        }
        None
    }

    /// Checks `path` and puts it in canonical form.
    pub fn normalize_path(path: &str) -> (r: VfsResult<String>)
        ensures
            match r {
                Ok(s) => normalize(path@) == Some(s@),
                Err(e) => normalize(path@) is None && e is InvalidPath,
            },
    {
        proof {
            reveal_strlit("/");
            assert("/"@ =~= root_path());
        }
        let v = chars_of(path);
        let n = v.len();
        assert(v@.subrange(0, n as int) =~= path@);
        if has_pair_in(&v, 0, n, '.', '.') {
            return Err(VfsError::InvalidPath(String::from_str(".. traversal not allowed")));
        }
        if n == 0 {
            return Err(VfsError::InvalidPath(String::from_str("empty path")));
        }
        if n == 1 && v[0] == '/' {
            assert(path@ =~= root_path());
            return Ok(String::from_str("/"));
        }
        assert(path@ != root_path()) by {
            if path@ == root_path() {
                assert(path@[0] == '/');
            }
        }
        let mut a: usize = 0;
        while a < n && v[a] == '/'
            invariant
                a <= n,
                n == v.len(),
                v@ == path@,
                forall|i: int| 0 <= i < a ==> path@[i] == '/',
            decreases n - a,
        {
            a = a + 1;
        }
        let mut b: usize = n;
        while b > a && v[b - 1] == '/'
            invariant
                a <= b <= n,
                n == v.len(),
                v@ == path@,
                forall|i: int| b <= i < n ==> path@[i] == '/',
            decreases b,
        {
            b = b - 1;
        }
        proof {
            lemma_trim_start_at(path@, a as int);
            let s = path@.subrange(a as int, n as int);
            lemma_trim_end_at(s, b - a);
            assert(s.subrange(0, b - a) =~= path@.subrange(a as int, b as int));
        }
        if a == b || has_pair_in(&v, a, b, '/', '/') {
            return Err(VfsError::InvalidPath(String::from_str("empty path component")));
        }
        let core = path.substring_char(a, b);
        Ok(String::from_str("/").concat(core))
    }

    /// The Qid path identifier of `path`.
    fn path_to_qid_path(path: &str) -> (r: u64)
        ensures
            r == qid_path_of(path@),
    {
        let mut h = DefaultHasher::new();
        hash_str(path, &mut h);
        proof {
            assert(Seq::<Seq<u8>>::empty() + str_hash_input(path@) =~= str_hash_input(path@));
        }
        h.finish()
    }

    /// The Qid of the node `node` stored at `path`.
    fn qid_of<T>(path: &str, node: &Node) -> (r: Qid<T>)
        ensures
            qid_matches(r, path@, node@),
    {
        let qp = Self::path_to_qid_path(path);
        if node.is_file() {
            Qid::new_file(qp, node.version())
        } else {
            Qid::new_dir(qp, 0)
        }
    }

    /// The metadata of the node `node` stored at `path`.
    fn node_to_stat(path: &str, node: &Node) -> (r: Stat)
        ensures
            stat_matches(r, path@, node@),
    {
        reveal(stat_matches);
        let qid = Self::qid_of(path, node);
        let name = leaf_name_of(path);
        let mode: u32 = if node.is_dir() {
            0o755
        } else {
            0o644
        };
        Stat {
            qid,
            name,
            size: node.size(),
            mode,
            atime: node.mtime(),
            mtime: node.mtime(),
            uid: String::from_str("user"),
            gid: String::from_str("group"),
        }
    }

    /// The id that the next successful `open` or `create` will hand out.
    pub fn next_handle_id(&self) -> (r: u64)
        ensures
            r == self.fid_counter(),
    {
        self.next_fid
    }

    /// Hands out the next handle id.
    fn next_fid(&mut self) -> (r: u64)
        requires
            old(self).wf(),
            old(self).fid_counter() < u64::MAX,
        ensures
            final(self).wf(),
            final(self)@ == old(self)@,
            r == old(self).fid_counter(),
            final(self).fid_counter() == old(self).fid_counter() + 1,
    {
        let id = self.next_fid;
        self.next_fid = self.next_fid + 1;
        id
    }

    /// A handle on the entry at index `i`, with a fresh id.
    fn handle_at<T, M>(&mut self, i: usize, mode: u32) -> (r: FileHandle<T, M>)
        requires
            old(self).wf(),
            old(self).fid_counter() < u64::MAX,
            i < old(self).entries.len(),
        ensures
            final(self).wf(),
            final(self)@ == old(self)@,
            final(self).fid_counter() == old(self).fid_counter() + 1,
            handle_matches(
                r,
                old(self).fid_counter(),
                old(self).entries[i as int].path@,
                old(self).entries[i as int].node@,
                mode,
            ),
    {
        let qid = Self::qid_of(self.entries[i].path.as_str(), &self.entries[i].node);
        let path = self.entries[i].path.clone();
        let fid = self.next_fid();
        FileHandle::new(fid, qid, path, mode)
    }

    /// Opens the node at `path` as an object of kind `T` with access mode `M`.
    pub fn open<M, T: ObjectKind>(&mut self, path: &str, mode: u32) -> (r: VfsResult<
        FileHandle<T, M>,
    >)
        requires
            old(self).wf(),
            old(self).fid_counter() < u64::MAX,
        ensures
            final(self).wf(),
            final(self)@ == old(self)@,
            match normalize(path@) {
                None => r is Err && r->Err_0 is InvalidPath,
                Some(p) => if !old(self)@.contains_key(p) {
                    r is Err && r->Err_0 is NotFound
                } else if old(self)@[p].kind() != T::spec_kind() {
                    r is Err && if T::spec_kind() == NodeKind::File {
                        r->Err_0 is IsADirectory
                    } else {
                        r->Err_0 is NotADirectory
                    }
                } else {
                    r is Ok && handle_matches(
                        r->Ok_0,
                        old(self).fid_counter(),
                        p,
                        old(self)@[p],
                        mode,
                    )
                },
            },
            r is Ok ==> final(self).fid_counter() == old(self).fid_counter() + 1,
            r is Err ==> final(self).fid_counter() == old(self).fid_counter(),
    {
        let p = match Self::normalize_path(path) {
            Ok(p) => p,
            Err(e) => return Err(e),
        };
        let i = match self.find(&p) {
            None => return Err(VfsError::NotFound(p)),
            Some(i) => i,
        };
        let want = T::kind();
        if self.entries[i].node.is_file() {
            if want != NodeKind::File {
                return Err(VfsError::NotADirectory(p));
            }
        } else if want != NodeKind::Dir {
            return Err(VfsError::IsADirectory(p));
        }
        Ok(self.handle_at(i, mode))
    }

    /// Checks that the directory that would hold `path` exists.
    fn ensure_parent_exists(&self, path: &str) -> (r: VfsResult<()>)
        requires
            self.wf(),
        ensures
            match r {
                Ok(()) => self@.contains_key(parent_of(path@)) && self@[parent_of(path@)].kind()
                    == NodeKind::Dir,
                Err(e) => if self@.contains_key(parent_of(path@)) {
                    e is NotADirectory && self@[parent_of(path@)].kind() == NodeKind::File
                } else {
                    e is NotFound
                },
            },
    {
        let parent = parent_path(path);
        match self.find(&parent) {
            Some(i) => {
                if self.entries[i].node.is_dir() {
                    Ok(())
                } else {
                    Err(VfsError::NotADirectory(parent))
                }
            },
            None => Err(VfsError::NotFound(String::from_str("parent directory: ").concat(parent.as_str()))),
        }
    }

    /// Creates a node of kind `T` at `path` and opens it with access mode `M`.
    /// Parents are never created: the directory that holds `path` must exist.
    /// The kinds are the closed set `File` and `Dir`, so no kind is refused.
    pub fn create<M, T: ObjectKind>(&mut self, path: &str, mode: u32) -> (r: VfsResult<
        FileHandle<T, M>,
    >)
        requires
            old(self).wf(),
            old(self).fid_counter() < u64::MAX,
        ensures
            final(self).wf(),
            match normalize(path@) {
                None => r is Err && r->Err_0 is InvalidPath,
                Some(p) => if old(self)@.contains_key(p) {
                    r is Err && r->Err_0 is AlreadyExists
                } else if !old(self)@.contains_key(parent_of(p)) {
                    r is Err && r->Err_0 is NotFound
                } else if old(self)@[parent_of(p)].kind() != NodeKind::Dir {
                    r is Err && r->Err_0 is NotADirectory
                } else {
                    &&& r is Ok
                    &&& final(self)@ == old(self)@.insert(p, final(self)@[p])
                    &&& final(self)@[p].is_fresh(T::spec_kind())
                    &&& handle_matches(
                        r->Ok_0,
                        old(self).fid_counter(),
                        p,
                        final(self)@[p],
                        mode,
                    )
                },
            },
            r is Ok ==> final(self).fid_counter() == old(self).fid_counter() + 1,
            r is Err ==> final(self).fid_counter() == old(self).fid_counter() && final(self)@
                == old(self)@,
    {
        let p = match Self::normalize_path(path) {
            Ok(p) => p,
            Err(e) => return Err(e),
        };
        if self.find(&p).is_some() {
            return Err(VfsError::AlreadyExists(p));
        }
        match self.ensure_parent_exists(p.as_str()) {
            Ok(()) => {},
            Err(e) => return Err(e),
        }
        let node = match T::kind() {
            NodeKind::File => Node::new_file(),
            NodeKind::Dir => Node::new_dir(),
        };
        proof {
            lemma_normalize_canonical(path@);
        }
        let ghost old_self = *self;
        let ghost key = p@;
        let ghost nv = node@;
        self.entries.push(Entry { path: p, node });
        self.nodes = Ghost(self.nodes@.insert(key, nv));
        proof {
            let m = self.nodes@;
            let n = self.entries.len() - 1;
            assert(self.entries[n as int].path@ == key);
            assert forall|i: int| 0 <= i < n implies self.entries[i] == old_self.entries[i] by {}
            assert forall|i: int| 0 <= i < n implies #[trigger] self.entries[i].path@ != key by {
                assert(old_self@.contains_key(old_self.entries[i].path@));
            }
            assert forall|k: Seq<char>| #[trigger] m.contains_key(k) implies exists|i: int|
                0 <= i < self.entries.len() && #[trigger] self.entries[i].path@ == k by {
                if k == key {
                    assert(self.entries[n as int].path@ == k);
                } else {
                    assert(old_self@.contains_key(k));
                    let j = choose|j: int| 0 <= j < old_self.entries.len() && #[trigger] old_self.entries[j].path@ == k;
                    assert(self.entries[j].path@ == k);
                }
            }
            assert forall|k: Seq<char>| m.contains_key(k) && k != root_path() implies m.contains_key(#[trigger] parent_of(k))
                && m[parent_of(k)].kind() == NodeKind::Dir by {
                if k != key {
                    assert(old_self@.contains_key(k));
                }
            }
        }
        Ok(self.handle_at(self.entries.len() - 1, mode))
    }

    /// Reads up to `count` bytes at `offset` from the file of `handle`.
    pub fn read<M: CanRead>(&self, handle: &FileHandle<File, M>, offset: u64, count: usize) -> (r:
        VfsResult<Vec<u8>>)
        requires
            self.wf(),
        ensures
            if !self@.contains_key(handle.path@) {
                r is Err && r->Err_0 is NotFound
            } else {
                match self@[handle.path@] {
                    NodeView::Dir { .. } => r is Err && r->Err_0 is IsADirectory,
                    NodeView::File { data, .. } => r is Ok && r->Ok_0@ == read_range(
                        data,
                        offset as int,
                        count as int,
                    ),
                }
            },
    {
        let i = match self.find(&handle.path) {
            None => return Err(VfsError::NotFound(handle.path.clone())),
            Some(i) => i,
        };
        match &self.entries[i].node {
            Node::File { data, .. } => {
                if offset > data.len() as u64 {
                    return Ok(Vec::new());
                }
                let start = offset as usize;
                let end = if count < data.len() - start {
                    start + count
                } else {
                    data.len()
                };
                let mut out: Vec<u8> = Vec::new();
                let mut j: usize = start;
                while j < end
                    invariant
                        start <= j <= end <= data.len(),
                        out@ == data@.subrange(start as int, j as int),
                    decreases end - j,
                {
                    out.push(data[j]);
                    j = j + 1;
                    assert(out@ =~= data@.subrange(start as int, j as int));
                }
                Ok(out)
            },
            Node::Dir { .. } => Err(VfsError::IsADirectory(handle.path.clone())),
        }
    }

    /// Writes `data` at `offset` into the file of `handle` and returns the
    /// number of bytes written. Any offset is accepted: the file grows to
    /// cover the write, and a gap before it is filled with zero bytes. The
    /// file's version goes up by one and its timestamp is renewed.
    #[verifier::rlimit(50)]
    pub fn write<M: CanWrite>(&mut self, handle: &FileHandle<File, M>, offset: u64, data: &[u8]) -> (r:
        VfsResult<usize>)
        requires
            old(self).wf(),
            offset + data@.len() <= usize::MAX,
            old(self)@.contains_key(handle.path@) ==> old(self)@[handle.path@].version() < u32::MAX,
        ensures
            final(self).wf(),
            final(self).fid_counter() == old(self).fid_counter(),
            if !old(self)@.contains_key(handle.path@) {
                r is Err && r->Err_0 is NotFound && final(self)@ == old(self)@
            } else {
                match old(self)@[handle.path@] {
                    NodeView::Dir { .. } => r is Err && r->Err_0 is IsADirectory && final(self)@
                        == old(self)@,
                    NodeView::File { data: d, version, .. } => {
                        &&& r is Ok
                        &&& r->Ok_0 == data@.len()
                        &&& final(self)@ == old(self)@.insert(handle.path@, final(self)@[handle.path@])
                        &&& final(self)@[handle.path@] is File
                        &&& final(self)@[handle.path@]->File_data == write_range(d, offset as int, data@)
                        &&& final(self)@[handle.path@].version() == version + 1
                    },
                }
            },
    {
        let i = match self.find(&handle.path) {
            None => return Err(VfsError::NotFound(handle.path.clone())),
            Some(i) => i,
        };
        if self.entries[i].node.is_dir() {
            return Err(VfsError::IsADirectory(handle.path.clone()));
        }
        let ghost old_self = *self;
        let Entry { path, node } = self.entries.remove(i);
        let (mut buf, version) = match node {
            Node::File { data: buf, version, .. } => (buf, version),
            Node::Dir { mtime } => {
                self.entries.insert(i, Entry { path, node: Node::Dir { mtime } });
                assert(false);
                return Err(VfsError::IsADirectory(handle.path.clone()));
            },
        };
        let ghost d = buf@;
        let start = offset as usize;
        let end = start + data.len();
        while buf.len() < end
            invariant
                d.len() <= buf.len() <= end || buf.len() == d.len(),
                forall|k: int| 0 <= k < buf.len() ==> buf@[k] == if k < d.len() {
                    d[k]
                } else {
                    0u8
                },
            decreases end - buf.len(),
        {
            buf.push(0u8);
        }
        let ghost padded = buf@;
        let mut j: usize = 0;
        while j < data.len()
            invariant
                j <= data.len(),
                end == start + data@.len(),
                buf.len() == padded.len(),
                end <= buf.len(),
                forall|k: int| 0 <= k < buf.len() ==> buf@[k] == if start <= k < start + j {
                    data@[k - start]
                } else {
                    padded[k]
                },
            decreases data.len() - j,
        {
            buf[start + j] = data[j];
            j = j + 1;
        }
        assert(buf@ =~= write_range(d, offset as int, data@));
        let new_node = Node::File { data: buf, mtime: now(), version: version + 1 };
        let ghost nv = new_node@;
        self.entries.insert(i, Entry { path, node: new_node });
        self.nodes = Ghost(self.nodes@.insert(handle.path@, nv));
        proof {
            let m = self.nodes@;
            assert forall|x: int| 0 <= x < self.entries.len() && x != i implies self.entries[x] == old_self.entries[x] by {}
            assert(self.entries[i as int].path@ == handle.path@);
            assert forall|k: Seq<char>| #[trigger] m.contains_key(k) implies exists|x: int|
                0 <= x < self.entries.len() && #[trigger] self.entries[x].path@ == k by {
                assert(old_self@.contains_key(k));
                let x = choose|x: int| 0 <= x < old_self.entries.len() && #[trigger] old_self.entries[x].path@ == k;
                assert(self.entries[x].path@ == k);
            }
            assert forall|k: Seq<char>| m.contains_key(k) && k != root_path() implies m.contains_key(#[trigger] parent_of(k))
                && m[parent_of(k)].kind() == NodeKind::Dir by {
                assert(old_self@.contains_key(k));
            }
            assert(m.dom() =~= old_self@.dom());
        }
        Ok(data.len())
    }

    /// Descends from `start` through `names`, one component at a time, and
    /// returns a Qid for each component reached.
    pub fn walk(&self, start: &str, names: &[String]) -> (r: VfsResult<WalkResult>)
        requires
            self.wf(),
        ensures
            match normalize(start@) {
                None => r is Err && r->Err_0 is InvalidPath,
                Some(s) => if !self@.contains_key(s) {
                    r is Err && r->Err_0 is NotFound
                } else {
                    match walk_paths(self@, s, names_view(names@)) {
                        None => r is Err && r->Err_0 is InvalidPath,
                        Some(ps) => {
                            &&& r is Ok
                            &&& r->Ok_0.qids.len() == ps.len()
                            &&& forall|i: int| 0 <= i < ps.len() ==> self@.contains_key(#[trigger] ps[i])
                            &&& forall|i: int|
                                0 <= i < ps.len() ==> qid_matches(
                                    #[trigger] r->Ok_0.qids[i],
                                    ps[i],
                                    self@[ps[i]],
                                )
                        },
                    }
                },
            },
    {
        let s = match Self::normalize_path(start) {
            Ok(s) => s,
            Err(e) => return Err(e),
        };
        if self.find(&s).is_none() {
            return Err(VfsError::NotFound(s));
        }
        let ghost ns = names_view(names@);
        let ghost s0 = s@;
        let ghost whole = walk_paths(self@, s@, ns);
        let ghost mut visited: Seq<Seq<char>> = Seq::empty();
        let mut current = s;
        let mut qids: Vec<Qid> = Vec::new();
        let mut done = false;
        let mut i: usize = 0;
        assert(ns.skip(0) =~= ns);
        while i < names.len() && !done
            invariant
                self.wf(),
                i <= names.len(),
                ns == names_view(names@),
                normalize(start@) == Some(s0),
                self@.contains_key(s0),
                whole == walk_paths(self@, s0, ns),
                self@.contains_key(current@),
                qids.len() == visited.len(),
                forall|j: int| 0 <= j < visited.len() ==> self@.contains_key(#[trigger] visited[j]),
                forall|j: int|
                    0 <= j < visited.len() ==> qid_matches(
                        #[trigger] qids@[j],
                        visited[j],
                        self@[visited[j]],
                    ),
                done ==> whole == Some(visited),
                !done ==> whole == match walk_paths(self@, current@, ns.skip(i as int)) {
                    Some(rest) => Some(visited + rest),
                    None => None,
                },
            decreases names.len() - i,
        {
            let name = &names[i];
            assert(ns.skip(i as int)[0] == name@);
            if !valid_name(name.as_str()) {
                assert(walk_paths(self@, current@, ns.skip(i as int)) is None);
                return Err(VfsError::InvalidPath(String::from_str("invalid name: ").concat(name.as_str())));
            }
            let next = join_path(current.as_str(), name.as_str());
            match self.find(&next) {
                None => {
                    assert(visited + Seq::empty() =~= visited);
                    done = true;
                },
                Some(idx) => {
                    let qid = Self::qid_of(next.as_str(), &self.entries[idx].node);
                    let ghost old_q = qids@;
                    qids.push(qid);
                    proof {
                        assert forall|j: int| 0 <= j < visited.len() + 1 implies qid_matches(
                            #[trigger] qids@[j],
                            visited.push(next@)[j],
                            self@[visited.push(next@)[j]],
                        ) by {
                            if j < visited.len() {
                                assert(qids@[j] == old_q[j]);
                            }
                        }
                        let tail = ns.skip(i + 1);
                        assert(ns.skip(i as int).drop_first() =~= tail);
                        match walk_paths(self@, next@, tail) {
                            Some(rest) => {
                                assert(visited + (seq![next@] + rest) =~= visited.push(next@) + rest);
                            },
                            None => {},
                        }
                        visited = visited.push(next@);
                    }
                    current = next;
                },
            }
            i = i + 1;
        }
        proof {
            if !done {
                assert(ns.skip(i as int).len() == 0);
                assert(walk_paths(self@, current@, ns.skip(i as int)) == Some(Seq::<Seq<char>>::empty()));
                assert(visited + Seq::empty() =~= visited);
            }
        }
        Ok(WalkResult { qids })
    }

    /// Indices of the entries that are immediate children of `dir`, in
    /// increasing order.
    fn get_dir_children(&self, dir: &str) -> (r: Vec<usize>)
        requires
            self.wf(),
        ensures
            forall|j: int|
                0 <= j < r.len() ==> #[trigger] r[j] < self.entries.len() && is_child(
                    self.entries[r[j] as int].path@,
                    dir@,
                ),
            forall|i: int|
                0 <= i < self.entries.len() && is_child(#[trigger] self.entries[i].path@, dir@)
                    ==> exists|j: int| 0 <= j < r.len() && r[j] == i,
            forall|j1: int, j2: int| 0 <= j1 < j2 < r.len() ==> r[j1] < r[j2],
    {
        let d = String::from_str(dir);
        let mut out: Vec<usize> = Vec::new();
        let mut i: usize = 0;
        while i < self.entries.len()
            invariant
                self.wf(),
                i <= self.entries.len(),
                d@ == dir@,
                forall|j: int|
                    0 <= j < out.len() ==> #[trigger] out[j] < i && is_child(
                        self.entries[out[j] as int].path@,
                        dir@,
                    ),
                forall|x: int|
                    0 <= x < i && is_child(#[trigger] self.entries[x].path@, dir@)
                        ==> exists|j: int| 0 <= j < out.len() && out[j] == x,
                forall|j1: int, j2: int| 0 <= j1 < j2 < out.len() ==> out[j1] < out[j2],
            decreases self.entries.len() - i,
        {
            let k = self.entries[i].path.as_str();
            let ghost old_out = out@;
            if !is_root(k) {
                let parent = parent_path(k);
                if parent == d {
                    out.push(i);
                }
            }
            proof {
                assert forall|x: int|
                    0 <= x < i + 1 && is_child(#[trigger] self.entries[x].path@, dir@)
                        implies exists|j: int| 0 <= j < out.len() && out[j] == x by {
                    if x < i {
                        let j = choose|j: int| 0 <= j < old_out.len() && old_out[j] == x;
                        assert(out@[j] == x);
                    } else {
                        assert(out@[out.len() - 1] == x);
                    }
                }
            }
            i = i + 1;
        }
        out
    }

    /// Removes the node at `path`. The root cannot be removed, nor a
    /// directory that still has children.
    pub fn remove<T>(&mut self, path: &str) -> (r: VfsResult<()>)
        requires
            old(self).wf(),
        ensures
            final(self).wf(),
            final(self).fid_counter() == old(self).fid_counter(),
            match normalize(path@) {
                None => r is Err && r->Err_0 is InvalidPath,
                Some(p) => if p == root_path() {
                    r is Err && r->Err_0 is PermissionDenied
                } else if !old(self)@.contains_key(p) {
                    r is Err && r->Err_0 is NotFound
                } else if old(self)@[p].kind() == NodeKind::Dir && has_children(old(self)@, p) {
                    r is Err && r->Err_0 is InvalidArgument
                } else {
                    r is Ok && final(self)@ == old(self)@.remove(p)
                },
            },
            r is Err ==> final(self)@ == old(self)@,
    {
        let p = match Self::normalize_path(path) {
            Ok(p) => p,
            Err(e) => return Err(e),
        };
        if is_root(p.as_str()) {
            return Err(VfsError::PermissionDenied(String::from_str("cannot remove root")));
        }
        let i = match self.find(&p) {
            None => return Err(VfsError::NotFound(p)),
            Some(i) => i,
        };
        if self.entries[i].node.is_dir() {
            let children = self.get_dir_children(p.as_str());
            if children.len() > 0 {
                assert(self@.contains_key(self.entries[children[0] as int].path@));
                return Err(VfsError::InvalidArgument(String::from_str("directory not empty")));
            }
            proof {
                if has_children(self@, p@) {
                    let k = choose|k: Seq<char>| #[trigger] self@.contains_key(k) && is_child(k, p@);
                    let x = choose|x: int| 0 <= x < self.entries.len() && #[trigger] self.entries[x].path@ == k;
                    assert(is_child(self.entries[x].path@, p@));
                }
            }
        }
        let ghost old_self = *self;
        let ghost key = p@;
        self.entries.remove(i);
        self.nodes = Ghost(self.nodes@.remove(key));
        proof {
            let m = self.nodes@;
            assert forall|x: int| 0 <= x < self.entries.len() implies self.entries[x] == old_self.entries[
                if x < i { x } else { x + 1 }] by {}
            assert forall|x: int| 0 <= x < self.entries.len() implies #[trigger] self.entries[x].path@ != key by {
                let y = if x < i { x } else { x + 1 };
                assert(old_self.entries[y].path@ != old_self.entries[i as int].path@);
            }
            assert forall|k: Seq<char>| #[trigger] m.contains_key(k) implies exists|x: int|
                0 <= x < self.entries.len() && #[trigger] self.entries[x].path@ == k by {
                assert(old_self@.contains_key(k));
                let y = choose|y: int| 0 <= y < old_self.entries.len() && #[trigger] old_self.entries[y].path@ == k;
                if y < i {
                    assert(self.entries[y].path@ == k);
                } else {
                    assert(self.entries[y - 1].path@ == k);
                }
            }
            assert forall|k: Seq<char>| m.contains_key(k) && k != root_path() implies m.contains_key(#[trigger] parent_of(k))
                && m[parent_of(k)].kind() == NodeKind::Dir by {
                assert(old_self@.contains_key(k));
                if parent_of(k) == key {
                    assert(is_child(k, key));
                    assert(has_children(old_self@, key));
                }
            }
        }
        Ok(())
    }

    /// The metadata of every immediate child of the directory of `handle`,
    /// in a stable order.
    #[verifier::rlimit(60)]
    pub fn readdir(&self, handle: &FileHandle<Dir, ReadOnly>) -> (r: VfsResult<Vec<Stat>>)
        requires
            self.wf(),
        ensures
            if !self@.contains_key(handle.path@) {
                r is Err && r->Err_0 is NotFound
            } else if self@[handle.path@].kind() == NodeKind::File {
                r is Err && r->Err_0 is NotADirectory
            } else {
                &&& r is Ok
                &&& forall|i: int|
                        0 <= i < r->Ok_0.len() ==> describes_child(self@, handle.path@, #[trigger] r->Ok_0[i])
                &&& forall|k: Seq<char>|
                    #[trigger] self@.contains_key(k) && is_child(k, handle.path@) ==> exists|i: int|
                        0 <= i < r->Ok_0.len() && stat_matches(r->Ok_0[i], k, self@[k])
                &&& forall|i: int, j: int|
                    0 <= i < j < r->Ok_0.len() ==> r->Ok_0[i].name@ != r->Ok_0[j].name@
            },
    {
        let i = match self.find(&handle.path) {
            None => return Err(VfsError::NotFound(handle.path.clone())),
            Some(i) => i,
        };
        if self.entries[i].node.is_file() {
            return Err(VfsError::NotADirectory(handle.path.clone()));
        }
        let children = self.get_dir_children(handle.path.as_str());
        let mut stats: Vec<Stat> = Vec::new();
        let mut j: usize = 0;
        while j < children.len()
            invariant
                self.wf(),
                j <= children.len(),
                stats.len() == j,
                forall|x: int|
                    0 <= x < children.len() ==> #[trigger] children[x] < self.entries.len() && is_child(
                        self.entries[children[x] as int].path@,
                        handle.path@,
                    ),
                forall|x: int|
                    0 <= x < j ==> stat_matches(
                        #[trigger] stats[x],
                        self.entries[children[x] as int].path@,
                        self.entries[children[x] as int].node@,
                    ),
            decreases children.len() - j,
        {
            let c = children[j];
            stats.push(Self::node_to_stat(self.entries[c].path.as_str(), &self.entries[c].node));
            j = j + 1;
        }
        proof {
            let d = handle.path@;
            let keys = Seq::new(children.len() as nat, |x: int| self.entries[children[x] as int].path@);
            assert forall|x: int| 0 <= x < keys.len() implies self@.contains_key(#[trigger] keys[x]) && is_child(keys[x], d) by {
                assert(self@.contains_key(self.entries[children[x] as int].path@));
            }
            assert forall|x: int| 0 <= x < keys.len() implies stat_matches(#[trigger] stats@[x], keys[x], self@[keys[x]]) by {
                assert(self@.contains_key(self.entries[children[x] as int].path@));
            }
            assert forall|k: Seq<char>| #[trigger] self@.contains_key(k) && is_child(k, d) implies exists|x: int|
                0 <= x < keys.len() && #[trigger] keys[x] == k by {
                let y = choose|y: int| 0 <= y < self.entries.len() && #[trigger] self.entries[y].path@ == k;
                assert(is_child(self.entries[y].path@, d));
                let x = choose|x: int| 0 <= x < children.len() && children[x] == y;
                assert(keys[x] == k);
            }
            assert forall|x: int| 0 <= x < keys.len() implies is_canonical(#[trigger] keys[x]) by {
                assert(self@.contains_key(self.entries[children[x] as int].path@));
            }
            assert forall|x1: int, x2: int| 0 <= x1 < x2 < keys.len() implies keys[x1] != keys[x2] by {
                assert(children[x1] < children[x2]);
            }
            lemma_listing_sound(self@, d, keys, stats@);
            lemma_listing_complete(self@, d, keys, stats@);
            lemma_listing_distinct(self@, d, keys, stats@);
        }
        Ok(stats)
    }

    /// The metadata of the node at `path`.
    pub fn stat(&self, path: &str) -> (r: VfsResult<Stat>)
        requires
            self.wf(),
        ensures
            match normalize(path@) {
                None => r is Err && r->Err_0 is InvalidPath,
                Some(p) => if self@.contains_key(p) {
                    r is Ok && stat_matches(r->Ok_0, p, self@[p])
                } else {
                    r is Err && r->Err_0 is NotFound
                },
            },
    {
        let p = match Self::normalize_path(path) {
            Ok(p) => p,
            Err(e) => return Err(e),
        };
        match self.find(&p) {
            None => Err(VfsError::NotFound(p)),
            Some(i) => Ok(Self::node_to_stat(p.as_str(), &self.entries[i].node)),
        }
    }
}

impl Default for VfsMem {
    fn default() -> (r: Self)
        ensures
            r.wf(),
            r@.dom() == set![root_path()],
            r.fid_counter() == 1,
    {
        Self::new()
    }
}

} // verus!
