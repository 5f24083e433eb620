//! Canonical path syntax: normalization, parents, leaf names and joins.
//!
//! A canonical path is `/`, or `/` followed by one or more non-empty
//! components separated by single `/` characters.

use vstd::prelude::*;

verus! {

/// The root path `/`.
pub open spec fn root_path() -> Seq<char> {
    seq!['/']
}

/// Whether `a` is immediately followed by `b` somewhere in `p`.
pub open spec fn has_pair(p: Seq<char>, a: char, b: char) -> bool {
    exists|i: int| 0 <= i < p.len() - 1 && #[trigger] p[i] == a && p[i + 1] == b
}

/// `p` without its leading `/` characters.
pub open spec fn trim_start(p: Seq<char>) -> Seq<char>
    decreases p.len(),
{
    if p.len() > 0 && p[0] == '/' {
        trim_start(p.drop_first())
    } else {
        p
    }
}

/// `p` without its trailing `/` characters.
pub open spec fn trim_end(p: Seq<char>) -> Seq<char>
    decreases p.len(),
{
    if p.len() > 0 && p.last() == '/' {
        trim_end(p.drop_last())
    } else {
        p
    }
}

/// The canonical form of `p`, or `None` where `p` is rejected: it is empty,
/// holds `..` anywhere, or has an empty component once leading and trailing
/// separators are stripped.
pub open spec fn normalize(p: Seq<char>) -> Option<Seq<char>> {
    if p.len() == 0 || has_pair(p, '.', '.') {
        None
    } else if p == root_path() {
        Some(root_path())
    } else {
        let core = trim_end(trim_start(p));
        if core.len() == 0 || has_pair(core, '/', '/') {
            None
        } else {
            Some(seq!['/'] + core)
        }
    }
}

/// Whether `p` is in canonical form.
pub open spec fn is_canonical(p: Seq<char>) -> bool {
    p == root_path() || (p.len() >= 2 && p[0] == '/' && p.last() != '/' && !has_pair(
        p,
        '/',
        '/',
    ))
}

/// Index of the last `/` in `p`, or -1.
pub open spec fn last_slash(p: Seq<char>) -> int
    decreases p.len(),
{
    if p.len() == 0 {
        -1
    } else if p.last() == '/' {
        p.len() - 1
    } else {
        last_slash(p.drop_last())
    }
}

/// The directory that holds `p`: everything before the last separator, or
/// the root where that is empty.
pub open spec fn parent_of(p: Seq<char>) -> Seq<char> {
    let i = last_slash(p);
    if i <= 0 {
        root_path()
    } else {
        p.subrange(0, i)
    }
}

/// The final component of `p`; for the root, `/` itself.
pub open spec fn leaf_name(p: Seq<char>) -> Seq<char> {
    if p == root_path() {
        p
    } else {
        p.subrange(last_slash(p) + 1, p.len() as int)
    }
}

/// The path of the entry `name` in the directory `dir`.
pub open spec fn join(dir: Seq<char>, name: Seq<char>) -> Seq<char> {
    if dir == root_path() {
        seq!['/'] + name
    } else {
        dir + seq!['/'] + name
    }
}

/// Whether `name` may be used as one step of a walk.
pub open spec fn is_valid_name(name: Seq<char>) -> bool {
    !name.contains('/') && name != seq!['.', '.']
}

/// Whether `k` is an immediate child of the directory `d`.
pub open spec fn is_child(k: Seq<char>, d: Seq<char>) -> bool {
    k != root_path() && parent_of(k) == d
}

pub proof fn lemma_last_slash(p: Seq<char>)
    ensures
        -1 <= last_slash(p) < p.len(),
        last_slash(p) >= 0 ==> p[last_slash(p)] == '/',
        forall|j: int| last_slash(p) < j < p.len() ==> p[j] != '/',
    decreases p.len(),
{
    if p.len() > 0 && p.last() != '/' {
        let q = p.drop_last();
        lemma_last_slash(q);
        assert forall|j: int| last_slash(p) < j < p.len() implies p[j] != '/' by {
            if j < p.len() - 1 {
                assert(p[j] == q[j]);
            }
        }
    }
}

/// The last separator is the one after which no other comes.
pub proof fn lemma_last_slash_at(p: Seq<char>, k: int)
    requires
        k == -1 || (0 <= k < p.len() && p[k] == '/'),
        forall|j: int| k < j < p.len() ==> p[j] != '/',
    ensures
        last_slash(p) == k,
    decreases p.len(),
{
    if p.len() > 0 && p.last() != '/' {
        lemma_last_slash_at(p.drop_last(), k);
    }
}

pub proof fn lemma_trim_start_at(p: Seq<char>, a: int)
    requires
        0 <= a <= p.len(),
        forall|i: int| 0 <= i < a ==> p[i] == '/',
        a == p.len() || p[a] != '/',
    ensures
        trim_start(p) == p.subrange(a, p.len() as int),
    decreases a,
{
    if a == 0 {
        assert(p.subrange(0, p.len() as int) =~= p);
    } else {
        lemma_trim_start_at(p.drop_first(), a - 1);
        assert(p.drop_first().subrange(a - 1, p.len() - 1) =~= p.subrange(a, p.len() as int));
    }
}

pub proof fn lemma_trim_end_at(p: Seq<char>, b: int)
    requires
        0 <= b <= p.len(),
        forall|i: int| b <= i < p.len() ==> p[i] == '/',
        b == 0 || p[b - 1] != '/',
    ensures
        trim_end(p) == p.subrange(0, b),
    decreases p.len() - b,
{
    if b == p.len() {
        assert(p.subrange(0, b) =~= p);
    } else {
        lemma_trim_end_at(p.drop_last(), b);
        assert(p.drop_last().subrange(0, b) =~= p.subrange(0, b));
    }
}

/// What normalization returns is canonical.
pub proof fn lemma_normalize_canonical(p: Seq<char>)
    requires
        normalize(p) is Some,
    ensures
        is_canonical(normalize(p)->Some_0),
{
    if p != root_path() {
        let core = trim_end(trim_start(p));
        lemma_trim_shape(p);
        let q = seq!['/'] + core;
        assert(q.last() == core.last());
        assert(!has_pair(q, '/', '/')) by {
            if has_pair(q, '/', '/') {
                let i = choose|i: int| 0 <= i < q.len() - 1 && #[trigger] q[i] == '/' && q[i + 1] == '/';
                if i > 0 {
                    assert(core[i - 1] == '/' && core[i] == '/');
                }
            }
        }
    }
}

/// The shape of the trimmed core of `p`: a contiguous part of `p` that
/// neither starts nor ends with a separator.
pub proof fn lemma_trim_shape(p: Seq<char>)
    ensures
        ({
            let core = trim_end(trim_start(p));
            exists|a: int, b: int|
                0 <= a <= b <= p.len() && core == p.subrange(a, b) && (core.len() == 0 || (
                core[0] != '/' && core.last() != '/'))
        }),
{
    let ts = trim_start(p);
    lemma_trim_start_shape(p);
    lemma_trim_end_shape(ts);
    let a = p.len() - ts.len();
    let core = trim_end(ts);
    assert(ts.subrange(0, core.len() as int) =~= p.subrange(a, a + core.len()));
    assert(core.len() > 0 ==> core[0] == ts[0]);
}

proof fn lemma_trim_start_shape(p: Seq<char>)
    ensures
        trim_start(p).len() <= p.len(),
        trim_start(p) == p.subrange(p.len() - trim_start(p).len(), p.len() as int),
        trim_start(p).len() == 0 || trim_start(p)[0] != '/',
    decreases p.len(),
{
    if p.len() > 0 && p[0] == '/' {
        lemma_trim_start_shape(p.drop_first());
        let t = trim_start(p);
        assert(p.drop_first().subrange(p.len() - 1 - t.len(), p.len() - 1) =~= p.subrange(
            p.len() - t.len(),
            p.len() as int,
        ));
    } else {
        assert(p.subrange(0, p.len() as int) =~= p);
    }
}

proof fn lemma_trim_end_shape(p: Seq<char>)
    ensures
        trim_end(p).len() <= p.len(),
        trim_end(p) == p.subrange(0, trim_end(p).len() as int),
        trim_end(p).len() == 0 || trim_end(p).last() != '/',
    decreases p.len(),
{
    if p.len() > 0 && p.last() == '/' {
        lemma_trim_end_shape(p.drop_last());
        let t = trim_end(p);
        assert(p.drop_last().subrange(0, t.len() as int) =~= p.subrange(0, t.len() as int));
    } else {
        assert(p.subrange(0, p.len() as int) =~= p);
    }
}

/// Normalizing a canonical form gives it back.
pub proof fn lemma_normalize_idempotent(p: Seq<char>)
    requires
        normalize(p) is Some,
    ensures
        normalize(normalize(p)->Some_0) == normalize(p),
{
    let q = normalize(p)->Some_0;
    if p != root_path() {
        let core = trim_end(trim_start(p));
        lemma_trim_shape(p);
        let (a, b) = choose|a: int, b: int|
            0 <= a <= b <= p.len() && core == p.subrange(a, b) && (core.len() == 0 || (core[0]
                != '/' && core.last() != '/'));
        assert(!has_pair(q, '.', '.')) by {
            if has_pair(q, '.', '.') {
                let i = choose|i: int| 0 <= i < q.len() - 1 && #[trigger] q[i] == '.' && q[i + 1] == '.';
                assert(p[a + i - 1] == '.' && p[a + i] == '.');
            }
        }
        assert(q.drop_first() =~= core);
        lemma_trim_start_at(core, 0);
        assert(core.subrange(0, core.len() as int) =~= core);
        assert(trim_start(q) == core);
        lemma_trim_end_at(core, core.len() as int);
        assert(q != root_path()) by {
            assert(q.len() >= 2);
        }
    }
}

/// Any path that holds `..` is rejected.
pub proof fn lemma_traversal_rejected(p: Seq<char>)
    requires
        has_pair(p, '.', '.'),
    ensures
        normalize(p) is None,
{
}

/// Two distinct canonical paths under one directory have distinct leaf names.
pub proof fn lemma_children_distinct_names(k1: Seq<char>, k2: Seq<char>, d: Seq<char>)
    requires
        is_canonical(k1),
        is_canonical(k2),
        is_child(k1, d),
        is_child(k2, d),
        leaf_name(k1) == leaf_name(k2),
    ensures
        k1 == k2,
{
    lemma_last_slash(k1);
    lemma_last_slash(k2);
    let i1 = last_slash(k1);
    let i2 = last_slash(k2);
    assert(k1[0] == '/');
    assert(k2[0] == '/');
    if i1 == 0 && i2 > 0 {
        assert(k2.subrange(0, i2) == root_path());
        assert(k2.subrange(0, i2).len() == 1);
        assert(i2 == 1);
        assert(k2[1] == '/');
        assert(k2[0] == '/' && k2[0int + 1] == '/');
        assert(has_pair(k2, '/', '/'));
    } else if i2 == 0 && i1 > 0 {
        assert(k1.subrange(0, i1) == root_path());
        assert(k1.subrange(0, i1).len() == 1);
        assert(i1 == 1);
        assert(k1[1] == '/');
        assert(k1[0] == '/' && k1[0int + 1] == '/');
        assert(has_pair(k1, '/', '/'));
    } else {
        if i1 > 0 {
            assert(k1.subrange(0, i1).len() == i1);
            assert(i1 == i2);
        }
        assert(k1.subrange(i1 + 1, k1.len() as int).len() == k2.subrange(i2 + 1, k2.len() as int).len());
        assert(k1.len() == k2.len());
        assert forall|j: int| 0 <= j < k1.len() implies k1[j] == k2[j] by {
            if j < i1 {
                assert(k1[j] == k1.subrange(0, i1)[j]);
                assert(k2[j] == k2.subrange(0, i2)[j]);
            } else if j > i1 {
                assert(k1[j] == leaf_name(k1)[j - i1 - 1]);
                assert(k2[j] == leaf_name(k2)[j - i2 - 1]);
            }
        }
        assert(k1 =~= k2);
    }
}

/// The characters of `s`, in order.
pub fn chars_of(s: &str) -> (r: Vec<char>)
    ensures
        r@ == s@,
{
    broadcast use vstd::string::group_string_axioms;

    let mut v: Vec<char> = Vec::new();
    for c in it: s.chars()
        invariant
            v@ == it.seq().take(it.index() as int),
    {
        v.push(c);
        assert(v@ =~= it.seq().take(it.index() + 1));
    }
    assert(v@ =~= s@);
    v
}

/// Whether `a` is immediately followed by `b` within `v[lo..hi]`.
pub fn has_pair_in(v: &Vec<char>, lo: usize, hi: usize, a: char, b: char) -> (r: bool)
    requires
        lo <= hi <= v.len(),
    ensures
        r == has_pair(v@.subrange(lo as int, hi as int), a, b),
{
    let ghost sub = v@.subrange(lo as int, hi as int);
    let mut i: usize = lo;
    while i < hi && i + 1 < hi
        invariant
            lo <= i <= hi,
            hi <= v.len(),
            sub == v@.subrange(lo as int, hi as int),
            forall|j: int| 0 <= j < i - lo ==> !(#[trigger] sub[j] == a && sub[j + 1] == b),
        decreases hi - i,
    {
        if v[i] == a && v[i + 1] == b {
            assert(sub[i - lo] == a && sub[i - lo + 1] == b);
            return true;
        }
        i = i + 1;
    }
    false
}

/// Whether `s` is the root path.
pub fn is_root(s: &str) -> (r: bool)
    ensures
        r == (s@ == root_path()),
{
    let n = s.unicode_len();
    if n == 1 {
        let c = s.get_char(0);
        if c == '/' {
            assert(s@ =~= root_path());
            return true;
        }
    }
    false
}

/// Index of the last `/` in `v`, if any.
pub fn find_last_slash(v: &Vec<char>) -> (r: Option<usize>)
    ensures
        match r {
            Some(i) => i as int == last_slash(v@),
            None => last_slash(v@) == -1,
        },
{
    let mut i: usize = v.len();
    while i > 0 && v[i - 1] != '/'
        invariant
            i <= v.len(),
            forall|j: int| i <= j < v.len() ==> v@[j] != '/',
        decreases i,
    {
        i = i - 1;
    }
    if i == 0 {
        proof {
            lemma_last_slash_at(v@, -1);
        }
        None
    } else {
        proof {
            lemma_last_slash_at(v@, i - 1);
        }
        Some(i - 1)
    }
}

/// The directory that holds `p`.
pub fn parent_path(p: &str) -> (r: String)
    ensures
        r@ == parent_of(p@),
{
    proof {
        reveal_strlit("/");
        assert("/"@ =~= root_path());
        lemma_last_slash(p@);
    }
    let v = chars_of(p);
    if let Some(i) = find_last_slash(&v) {
        if i > 0 {
            return String::from_str(p.substring_char(0, i));
        }
    }
    String::from_str("/")
}

/// The final component of `p`; for the root, `/` itself.
pub fn leaf_name_of(p: &str) -> (r: String)
    ensures
        r@ == leaf_name(p@),
{
    if is_root(p) {
        return String::from_str(p);
    }
    proof {
        lemma_last_slash(p@);
    }
    let v = chars_of(p);
    let start: usize = match find_last_slash(&v) {
        Some(i) => i + 1,
        None => 0,
    };
    String::from_str(p.substring_char(start, v.len()))
}

/// The path of the entry `name` in the directory `dir`.
pub fn join_path(dir: &str, name: &str) -> (r: String)
    ensures
        r@ == join(dir@, name@),
{
    proof {
        reveal_strlit("/");
        assert("/"@ =~= root_path());
    }
    if is_root(dir) {
        String::from_str("/").concat(name)
    } else {
        String::from_str(dir).concat("/").concat(name)
    }
}

/// Whether `name` may be used as one step of a walk: it holds no separator
/// and is not `..`.
pub fn valid_name(name: &str) -> (r: bool)
    ensures
        r == is_valid_name(name@),
{
    let v = chars_of(name);
    let mut i: usize = 0;
    while i < v.len()
        invariant
            i <= v.len(),
            v@ == name@,
            forall|j: int| 0 <= j < i ==> v@[j] != '/',
        decreases v.len() - i,
    {
        if v[i] == '/' {
            assert(name@[i as int] == '/');
            return false;
        }
        i = i + 1;
    }
    if v.len() == 2 && v[0] == '.' && v[1] == '.' {
        assert(name@ =~= seq!['.', '.']);
        return false;
    }
    true
}

} // verus!
