//! The model that the in-memory backend's contracts are stated over: the
//! namespace as a map from canonical paths to node views, what each
//! operation reports, and the laws that relate operations.

use crate::backends::memory::node::NodeView;
use crate::path::{is_canonical, is_child, is_valid_name, join, leaf_name, lemma_children_distinct_names, parent_of, root_path};
use crate::types::{FileHandle, NodeKind, Qid, Stat, QTDIR, QTFILE};
use std::collections::hash_map::DefaultHasher;
use vstd::prelude::*;
use vstd::std_specs::hash::DefaultHasherAdditionalSpecFns;

verus! {

/// What `str`'s `Hash` impl feeds a hasher for the string `s`.
pub uninterp spec fn str_hash_input(s: Seq<char>) -> Seq<Seq<u8>>;

/// The Qid path identifier of the canonical path `p`: the digest of the
/// path under a hasher with fixed keys.
pub open spec fn qid_path_of(p: Seq<char>) -> u64 {
    DefaultHasher::spec_finish(str_hash_input(p))
}

/// The type byte of a node of kind `k`.
pub open spec fn qid_type_of(k: NodeKind) -> u8 {
    if k == NodeKind::File {
        QTFILE
    } else {
        QTDIR
    }
}

/// The mode that `stat` reports for a node of kind `k`.
pub open spec fn mode_of(k: NodeKind) -> u32 {
    if k == NodeKind::Dir {
        0o755
    } else {
        0o644
    }
}

/// Whether `q` identifies the node `n` stored at `p`.
pub open spec fn qid_matches<T>(q: Qid<T>, p: Seq<char>, n: NodeView) -> bool {
    &&& q.ty == qid_type_of(n.kind())
    &&& q.version == n.version()
    &&& q.path == qid_path_of(p)
}

/// Whether `st` describes the node `n` stored at `p`.
#[verifier::opaque]
pub open spec fn stat_matches<T>(st: Stat<T>, p: Seq<char>, n: NodeView) -> bool {
    &&& qid_matches(st.qid, p, n)
    &&& st.name@ == leaf_name(p)
    &&& st.size as nat == n.size()
    &&& st.mode == mode_of(n.kind())
    &&& st.atime == n.mtime()
    &&& st.mtime == n.mtime()
    &&& st.uid@ == "user"@
    &&& st.gid@ == "group"@
}

/// Whether `h` is the handle with id `fid` and mode `mode` on the node `n`
/// stored at `p`.
pub open spec fn handle_matches<T, M>(
    h: FileHandle<T, M>,
    fid: u64,
    p: Seq<char>,
    n: NodeView,
    mode: u32,
) -> bool {
    &&& h.fid == fid
    &&& qid_matches(h.qid, p, n)
    &&& h.path@ == p
    &&& h.mode == mode
}

/// The namespace invariant: the root is a directory, every key is
/// canonical, and every other key lies in a directory that is present.
pub open spec fn namespace_ok(m: Map<Seq<char>, NodeView>) -> bool {
    &&& m.contains_key(root_path())
    &&& m[root_path()].kind() == NodeKind::Dir
    &&& forall|k: Seq<char>| #[trigger] m.contains_key(k) ==> is_canonical(k)
    &&& forall|k: Seq<char>|
        m.contains_key(k) && k != root_path() ==> m.contains_key(#[trigger] parent_of(k))
            && m[parent_of(k)].kind() == NodeKind::Dir
}

/// Whether the directory `d` has at least one child in `m`.
pub open spec fn has_children(m: Map<Seq<char>, NodeView>, d: Seq<char>) -> bool {
    exists|k: Seq<char>| #[trigger] m.contains_key(k) && is_child(k, d)
}

/// The bytes that a read of `count` bytes at `offset` returns from `d`:
/// nothing past the end, else up to `count` bytes from `offset`.
pub open spec fn read_range(d: Seq<u8>, offset: int, count: int) -> Seq<u8> {
    if offset > d.len() {
        Seq::empty()
    } else if offset + count < d.len() {
        d.subrange(offset, offset + count)
    } else {
        d.subrange(offset, d.len() as int)
    }
}

/// The contents of `d` after `b` is written at `offset`: the file grows to
/// cover the write, and any gap before it reads as zero bytes.
pub open spec fn write_range(d: Seq<u8>, offset: int, b: Seq<u8>) -> Seq<u8> {
    let end = offset + b.len();
    let len = if end > d.len() {
        end
    } else {
        d.len() as int
    };
    Seq::new(
        len as nat,
        |i: int|
            if offset <= i < end {
                b[i - offset]
            } else if i < d.len() {
                d[i]
            } else {
                0u8
            },
    )
}

/// Reading back what was just written at an offset returns exactly the
/// bytes written.
pub proof fn lemma_write_read_round_trip(d: Seq<u8>, offset: int, b: Seq<u8>)
    requires
        offset >= 0,
    ensures
        read_range(write_range(d, offset, b), offset, b.len() as int) == b,
{
    let w = write_range(d, offset, b);
    assert(read_range(w, offset, b.len() as int) =~= b);
}

/// Writing `b1` at offset 0 of a file no longer than `b1`, then `b2` at an
/// offset past the end of `b1`, leaves `b1`, then zero bytes up to the
/// offset, then `b2`.
pub proof fn lemma_write_gap_zero_filled(d: Seq<u8>, b1: Seq<u8>, offset: int, b2: Seq<u8>)
    requires
        d.len() <= b1.len(),
        offset > b1.len(),
    ensures
        read_range(
            write_range(write_range(d, 0, b1), offset, b2),
            0,
            offset + b2.len(),
        ) == b1 + Seq::new((offset - b1.len()) as nat, |i: int| 0u8) + b2,
{
    let w1 = write_range(d, 0, b1);
    assert(w1 =~= b1);
    let w2 = write_range(w1, offset, b2);
    assert(read_range(w2, 0, offset + b2.len()) =~= w2);
    assert(w2 =~= b1 + Seq::new((offset - b1.len()) as nat, |i: int| 0u8) + b2);
}

/// The paths that a walk from `cur` through `names` descends into, or `None`
/// where it meets an invalid name first. The walk stops, without failing, at
/// the first name that is not present.
pub open spec fn walk_paths(
    m: Map<Seq<char>, NodeView>,
    cur: Seq<char>,
    names: Seq<Seq<char>>,
) -> Option<Seq<Seq<char>>>
    decreases names.len(),
{
    if names.len() == 0 {
        Some(Seq::empty())
    } else if !is_valid_name(names[0]) {
        None
    } else {
        let next = join(cur, names[0]);
        if m.contains_key(next) {
            match walk_paths(m, next, names.drop_first()) {
                Some(rest) => Some(seq![next] + rest),
                None => None,
            }
        } else {
            Some(Seq::empty())
        }
    }
}

/// The views of the strings `names`.
pub open spec fn names_view(names: Seq<String>) -> Seq<Seq<char>> {
    names.map_values(|n: String| n@)
}

/// Whether `st` describes some child of the directory `d` in `m`.
pub open spec fn describes_child(m: Map<Seq<char>, NodeView>, d: Seq<char>, st: Stat) -> bool {
    exists|k: Seq<char>| m.contains_key(k) && is_child(k, d) && stat_matches(st, k, m[k])
}

/// Each listed Stat describes a child of `d`.
pub(crate) proof fn lemma_listing_sound(m: Map<Seq<char>, NodeView>, d: Seq<char>, keys: Seq<Seq<char>>, stats: Seq<Stat>)
    requires
        keys.len() == stats.len(),
        forall|x: int| 0 <= x < keys.len() ==> m.contains_key(#[trigger] keys[x]) && is_child(keys[x], d),
        forall|x: int| 0 <= x < keys.len() ==> stat_matches(#[trigger] stats[x], keys[x], m[keys[x]]),
    ensures
        forall|i: int| 0 <= i < stats.len() ==> describes_child(m, d, #[trigger] stats[i]),
{
    assert forall|i: int| 0 <= i < stats.len() implies describes_child(m, d, #[trigger] stats[i]) by {
        let k = keys[i];
        assert(m.contains_key(k) && is_child(k, d) && stat_matches(stats[i], k, m[k]));
    }
}

/// Every child of `d` is listed.
pub(crate) proof fn lemma_listing_complete(m: Map<Seq<char>, NodeView>, d: Seq<char>, keys: Seq<Seq<char>>, stats: Seq<Stat>)
    requires
        keys.len() == stats.len(),
        forall|x: int| 0 <= x < keys.len() ==> stat_matches(#[trigger] stats[x], keys[x], m[keys[x]]),
        forall|k: Seq<char>|
            #[trigger] m.contains_key(k) && is_child(k, d) ==> exists|x: int|
                0 <= x < keys.len() && #[trigger] keys[x] == k,
    ensures
        forall|k: Seq<char>|
            #[trigger] m.contains_key(k) && is_child(k, d) ==> exists|i: int|
                0 <= i < stats.len() && stat_matches(stats[i], k, m[k]),
{
    assert forall|k: Seq<char>| #[trigger] m.contains_key(k) && is_child(k, d) implies exists|i: int|
        0 <= i < stats.len() && stat_matches(stats[i], k, m[k]) by {
        let x = choose|x: int| 0 <= x < keys.len() && #[trigger] keys[x] == k;
        assert(stat_matches(stats[x], keys[x], m[keys[x]]));
    }
}

/// No two listed Stats carry the same name.
pub(crate) proof fn lemma_listing_distinct(m: Map<Seq<char>, NodeView>, d: Seq<char>, keys: Seq<Seq<char>>, stats: Seq<Stat>)
    requires
        keys.len() == stats.len(),
        forall|x: int| 0 <= x < keys.len() ==> is_canonical(#[trigger] keys[x]),
        forall|x: int| 0 <= x < keys.len() ==> is_child(#[trigger] keys[x], d),
        forall|x: int| 0 <= x < keys.len() ==> stat_matches(#[trigger] stats[x], keys[x], m[keys[x]]),
        forall|x1: int, x2: int| 0 <= x1 < x2 < keys.len() ==> keys[x1] != keys[x2],
    ensures
        forall|i: int, j: int| 0 <= i < j < stats.len() ==> stats[i].name@ != stats[j].name@,
{
    assert forall|i: int, j: int| 0 <= i < j < stats.len() implies stats[i].name@ != stats[j].name@ by {
        assert(stat_matches(stats[i], keys[i], m[keys[i]]));
        assert(stat_matches(stats[j], keys[j], m[keys[j]]));
        reveal(stat_matches);
        if stats[i].name@ == stats[j].name@ {
            assert(is_canonical(keys[i]) && is_canonical(keys[j]));
            assert(is_child(keys[i], d) && is_child(keys[j], d));
            lemma_children_distinct_names(keys[i], keys[j], d);
        }
    }
}

/// `stat` of a node just made by `create` names the final component of its
/// path and reports size 0.
pub proof fn lemma_stat_after_create<T>(p: Seq<char>, n: NodeView, k: NodeKind, st: Stat<T>)
    requires
        n.is_fresh(k),
        stat_matches(st, p, n),
    ensures
        st.name@ == leaf_name(p),
        st.size == 0,
{
    reveal(stat_matches);
}

} // verus!
