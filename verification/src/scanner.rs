//! The scanner: finds `node_modules` directories in a modelled directory
//! tree, computing each one's total size, without descending into a found
//! marker directory (its interior stays opaque to further discovery, though
//! it still counts toward that entry's size).
//!
//! The model [`DirTree`] mirrors what the discovery walk reads of a real
//! filesystem: directory names, per-directory regular-file byte totals, and
//! modification times. An unreadable real directory is mirrored as one with
//! no children, so one unreadable subtree never aborts a scan.

use vstd::prelude::*;

use crate::render::u64_to_string;
use crate::render::dec_spec;

verus! {

/// One directory of the modelled tree: its name, the total byte length of the
/// regular files directly inside it, its modification time in whole seconds
/// since the epoch (when known), and its subdirectories.
#[derive(Debug)]
pub struct DirTree {
    pub name: String,
    pub file_bytes: u64,
    pub modified: Option<u64>,
    pub subdirs: Vec<DirTree>,
}

/// One discovered marker directory: its full path, its total size in bytes,
/// and its modification time in whole seconds since the epoch (when known).
#[derive(Debug, Clone)]
pub struct NodeModulesEntry {
    pub path: String,
    pub size: u64,
    pub last_modified: Option<u64>,
}

/// The fixed directory name the scanner searches for.
pub open spec fn marker_name() -> Seq<char> {
    "node_modules"@
}

pub open spec fn is_marker(t: DirTree) -> bool {
    t.name@ == marker_name()
}

/// Total size in bytes of every regular file under `t`, however deep.
pub open spec fn dir_size(t: DirTree) -> nat
    decreases t, t.subdirs.len() + 1,
{
    (t.file_bytes + dir_size_from(t, 0)) as nat
}

/// Sum of `dir_size` over the subdirectories of `t` from index `i` on.
pub open spec fn dir_size_from(t: DirTree, i: int) -> nat
    decreases t, t.subdirs.len() - i,
{
    if 0 <= i < t.subdirs.len() {
        dir_size(t.subdirs[i]) + dir_size_from(t, i + 1)
    } else {
        0
    }
}

/// Does `p`, read as a sequence of child indices, address a node of `t`?
pub open spec fn valid_path(t: DirTree, p: Seq<int>) -> bool
    decreases p.len(),
{
    p.len() == 0 || (0 <= p[0] < t.subdirs.len() && valid_path(t.subdirs[p[0]], p.drop_first()))
}

/// The node addressed by the index path `p` (meaningful when `valid_path`).
pub open spec fn node_at(t: DirTree, p: Seq<int>) -> DirTree
    decreases p.len(),
{
    if p.len() == 0 {
        t
    } else if 0 <= p[0] < t.subdirs.len() {
        node_at(t.subdirs[p[0]], p.drop_first())
    } else {
        t
    }
}

/// `p` addresses a marker directory none of whose proper ancestors below the
/// root is itself a marker: the ones discovery reports.
pub open spec fn is_top_marker(t: DirTree, p: Seq<int>) -> bool {
    &&& valid_path(t, p)
    &&& p.len() >= 1
    &&& is_marker(node_at(t, p))
    &&& forall|j: int| 1 <= j < p.len() ==> !is_marker(node_at(t, #[trigger] p.take(j)))
}

/// The index paths of the marker directories discovery reports, in discovery
/// order: children in order, depth first, never descending into a marker.
pub open spec fn marker_paths(t: DirTree) -> Seq<Seq<int>>
    decreases t, t.subdirs.len() + 1,
{
    marker_paths_from(t, 0)
}

/// The part of `marker_paths` contributed by children of `t` from index `i` on.
pub open spec fn marker_paths_from(t: DirTree, i: int) -> Seq<Seq<int>>
    decreases t, t.subdirs.len() - i,
{
    if 0 <= i < t.subdirs.len() {
        (if is_marker(t.subdirs[i]) {
            seq![seq![i]]
        } else {
            marker_paths(t.subdirs[i]).map_values(|p: Seq<int>| seq![i] + p)
        }) + marker_paths_from(t, i + 1)
    } else {
        Seq::empty()
    }
}

/// `prefix`, a separator, and `name`.
pub open spec fn path_join(prefix: Seq<char>, name: Seq<char>) -> Seq<char> {
    prefix + "/"@ + name
}

/// The display path of the node addressed by `p`: the names along the path,
/// joined below `prefix`.
pub open spec fn path_string(t: DirTree, prefix: Seq<char>, p: Seq<int>) -> Seq<char>
    decreases p.len(),
{
    if p.len() == 0 {
        prefix
    } else if 0 <= p[0] < t.subdirs.len() {
        path_string(t.subdirs[p[0]], path_join(prefix, t.subdirs[p[0]].name@), p.drop_first())
    } else {
        prefix
    }
}

/// `e` reports the marker directory addressed by `p`: its joined path, its
/// total size, its modification time.
pub open spec fn entry_matches(
    t: DirTree,
    prefix: Seq<char>,
    p: Seq<int>,
    e: NodeModulesEntry,
) -> bool {
    &&& e.path@ == path_string(t, prefix, p)
    &&& e.size == dir_size(node_at(t, p))
    &&& e.last_modified == node_at(t, p).modified
}

/// `es` is exactly the scan result for `t` under `prefix`: one entry per
/// discovered marker directory, aligned with `marker_paths(t)`.
pub open spec fn scan_matches(t: DirTree, prefix: Seq<char>, es: Seq<NodeModulesEntry>) -> bool {
    &&& es.len() == marker_paths(t).len()
    &&& forall|k: int|
        0 <= k < es.len() ==> entry_matches(t, prefix, marker_paths(t)[k], #[trigger] es[k])
}

proof fn lemma_dir_size_from_ge(t: DirTree, j: int, i: int)
    requires
        0 <= j <= i < t.subdirs.len(),
    ensures
        dir_size_from(t, j) >= dir_size(t.subdirs[i]),
    decreases i - j,
{
    if j < i {
        lemma_dir_size_from_ge(t, j + 1, i);
    }
}

/// A subtree never outweighs the tree that holds it.
pub proof fn lemma_child_size_le(t: DirTree, i: int)
    requires
        0 <= i < t.subdirs.len(),
    ensures
        dir_size(t.subdirs[i]) <= dir_size(t),
{
    lemma_dir_size_from_ge(t, 0, i);
}

/// Does `name` equal the fixed marker name?
pub fn is_marker_name(name: &String) -> (r: bool)
    ensures
        r == (name@ == marker_name()),
{
    let m: String = "node_modules".to_owned();
    *name == m
}

/// The total size of the tree, when it fits in a byte counter; `None` means
/// the mathematical sum exceeds `u64::MAX`.
pub fn try_dir_size(t: &DirTree) -> (r: Option<u64>)
    ensures
        match r {
            Some(v) => v == dir_size(*t),
            None => dir_size(*t) > u64::MAX,
        },
    decreases *t,
{
    let mut acc: u64 = t.file_bytes;
    let mut i: usize = 0;
    while i < t.subdirs.len()
        invariant
            i <= t.subdirs.len(),
            acc + dir_size_from(*t, i as int) == dir_size(*t),
        decreases t.subdirs.len() - i,
    {
        match try_dir_size(&t.subdirs[i]) {
            None => {
                return None;
            },
            Some(v) => {
                match acc.checked_add(v) {
                    None => {
                        return None;
                    },
                    Some(s) => {
                        acc = s;
                    },
                }
            },
        }
        i = i + 1;
    }
    Some(acc)
}

/// Does the total size of the tree fit in a byte counter?
pub fn tree_size_fits(t: &DirTree) -> (b: bool)
    ensures
        b == (dir_size(*t) <= u64::MAX),
{
    try_dir_size(t).is_some()
}

fn compute_dir_size(t: &DirTree) -> (r: u64)
    requires
        dir_size(*t) <= u64::MAX,
    ensures
        r == dir_size(*t),
    decreases *t,
{
    let mut acc: u64 = t.file_bytes;
    let mut i: usize = 0;
    while i < t.subdirs.len()
        invariant
            i <= t.subdirs.len(),
            dir_size(*t) <= u64::MAX,
            acc + dir_size_from(*t, i as int) == dir_size(*t),
        decreases t.subdirs.len() - i,
    {
        proof {
            lemma_child_size_le(*t, i as int);
        }
        acc = acc + compute_dir_size(&t.subdirs[i]);
        i = i + 1;
    }
    acc
}

fn join_path(prefix: &String, name: &String) -> (r: String)
    ensures
        r@ == path_join(prefix@, name@),
{
    let mut s = prefix.clone();
    s.append("/");
    s.append(name.as_str());
    proof {
        assert(s@ =~= path_join(prefix@, name@));
    }
    s
}

fn scan_directory(t: &DirTree, prefix: &String) -> (out: Vec<NodeModulesEntry>)
    requires
        dir_size(*t) <= u64::MAX,
    ensures
        scan_matches(*t, prefix@, out@),
    decreases *t,
{
    let ghost mp = marker_paths(*t);
    let mut out: Vec<NodeModulesEntry> = Vec::new();
    let mut i: usize = 0;
    while i < t.subdirs.len()
        invariant
            i <= t.subdirs.len(),
            dir_size(*t) <= u64::MAX,
            mp == marker_paths(*t),
            out@.len() + marker_paths_from(*t, i as int).len() == mp.len(),
            mp =~= mp.take(out@.len() as int) + marker_paths_from(*t, i as int),
            forall|k: int|
                0 <= k < out@.len() ==> entry_matches(*t, prefix@, mp[k], #[trigger] out@[k]),
        decreases t.subdirs.len() - i,
    {
        let ghost done = out@.len() as int;
        let child = &t.subdirs[i];
        proof {
            lemma_child_size_le(*t, i as int);
        }
        if is_marker_name(&child.name) {
            let size = compute_dir_size(child);
            let path = join_path(prefix, &child.name);
            let entry = NodeModulesEntry { path, size, last_modified: child.modified };
            out.push(entry);
            proof {
                let p = seq![i as int];
                assert(marker_paths_from(*t, i as int) == seq![p] + marker_paths_from(
                    *t,
                    i as int + 1,
                ));
                assert(mp[done] == p);
                assert(p.drop_first() =~= Seq::<int>::empty());
                assert(node_at(*child, Seq::<int>::empty()) == *child);
                assert(node_at(*t, p) == *child);
                assert(path_string(*child, path_join(prefix@, child.name@), Seq::<int>::empty())
                    == path_join(prefix@, child.name@));
                assert(path_string(*t, prefix@, p) == path_join(prefix@, child.name@));
                assert(entry_matches(*t, prefix@, mp[done], out@[done]));
                assert(mp.take(done + 1) =~= mp.take(done) + seq![p]);
                assert(mp =~= mp.take(done + 1) + marker_paths_from(*t, i as int + 1));
            }
        } else {
            let joined = join_path(prefix, &child.name);
            let mut sub = scan_directory(child, &joined);
            let ghost subview = sub@;
            out.append(&mut sub);
            proof {
                let cmp = marker_paths(*child);
                let added = cmp.map_values(|p: Seq<int>| seq![i as int] + p);
                assert(marker_paths_from(*t, i as int) == added + marker_paths_from(
                    *t,
                    i as int + 1,
                ));
                assert forall|j: int| 0 <= j < cmp.len() implies entry_matches(
                    *t,
                    prefix@,
                    #[trigger] added[j],
                    out@[done + j],
                ) by {
                    let q = cmp[j];
                    let pq = seq![i as int] + q;
                    assert(added[j] == pq);
                    assert(out@[done + j] == subview[j]);
                    assert(entry_matches(*child, joined@, q, subview[j]));
                    assert(pq.drop_first() =~= q);
                    assert(pq.len() >= 1 && pq[0] == i as int);
                    assert(path_string(*t, prefix@, pq) == path_string(*child, joined@, q));
                    assert(node_at(*t, pq) == node_at(*child, q));
                }
                assert forall|k: int| 0 <= k < out@.len() implies entry_matches(
                    *t,
                    prefix@,
                    mp[k],
                    #[trigger] out@[k],
                ) by {
                    if k >= done {
                        assert(mp[k] == (mp.take(done) + marker_paths_from(*t, i as int))[k]);
                        assert(mp[k] == added[k - done]);
                        assert(entry_matches(*t, prefix@, added[k - done], out@[done + (k - done)]));
                    }
                }
                assert(mp.take(done + cmp.len() as int) =~= mp.take(done) + added);
                assert(mp =~= mp.take(done + cmp.len() as int) + marker_paths_from(
                    *t,
                    i as int + 1,
                ));
            }
        }
        i = i + 1;
    }
    proof {
        assert(marker_paths_from(*t, i as int) =~= Seq::<Seq<int>>::empty());
        assert(mp =~= mp.take(out@.len() as int));
    }
    out
}

/// Scans the tree rooted at `root`, whose display path is `root_path`, and
/// returns one entry for each discovered marker directory, in discovery
/// order: a child of a scanned directory whose name equals the marker name is
/// reported with its total size and never descended into; any other child is
/// scanned in turn.
pub fn scan_for_node_modules(root_path: &String, root: &DirTree) -> (result: Vec<
    NodeModulesEntry,
>)
    requires
        dir_size(*root) <= u64::MAX,
    ensures
        scan_matches(*root, root_path@, result@),
{
    scan_directory(root, root_path)
}

/// What `size_human` returns for a given byte count.
pub uninterp spec fn bytes_human_of(n: u64) -> Seq<char>;

/// Relies on `bytesize::ByteSize::to_string` (via `ByteSize::b`): renders a
/// byte count with a magnitude unit, a function of the count alone.
#[verifier::external_body]
fn format_bytes(n: u64) -> (r: String)
    ensures
        r@ == bytes_human_of(n),
{
    bytesize::ByteSize::b(n).to_string()
}

/// The relative-age rendering: bucketed at seconds, minutes, hours, days.
pub open spec fn age_text(secs: nat) -> Seq<char> {
    if secs < 60 {
        dec_spec(secs) + "s ago"@
    } else if secs < 3600 {
        dec_spec(secs / 60) + "m ago"@
    } else if secs < 86400 {
        dec_spec(secs / 3600) + "h ago"@
    } else {
        dec_spec(secs / 86400) + "d ago"@
    }
}

/// Renders an elapsed time in whole seconds as a bucketed relative age.
pub fn age_human(secs: u64) -> (s: String)
    ensures
        s@ == age_text(secs as nat),
{
    if secs < 60 {
        let mut s = u64_to_string(secs);
        s.append("s ago");
        s
    } else if secs < 3600 {
        let mut s = u64_to_string(secs / 60);
        s.append("m ago");
        s
    } else if secs < 86400 {
        let mut s = u64_to_string(secs / 3600);
        s.append("h ago");
        s
    } else {
        let mut s = u64_to_string(secs / 86400);
        s.append("d ago");
        s
    }
}

/// What `last_modified_human` returns: the bucketed age of `lm` at clock
/// time `now`, or `Unknown` when the time is absent or lies in the future.
pub open spec fn last_modified_text(lm: Option<u64>, now: u64) -> Seq<char> {
    match lm {
        Some(t) => if t <= now {
            age_text((now - t) as nat)
        } else {
            "Unknown"@
        },
        None => "Unknown"@,
    }
}

impl NodeModulesEntry {
    /// The entry's size rendered with a magnitude unit.
    pub fn size_human(&self) -> (s: String)
        ensures
            s@ == bytes_human_of(self.size),
    {
        format_bytes(self.size)
    }

    /// The entry's age relative to `now` (seconds since the epoch).
    pub fn last_modified_human(&self, now: u64) -> (s: String)
        ensures
            s@ == last_modified_text(self.last_modified, now),
    {
        match self.last_modified {
            Some(t) => {
                if t <= now {
                    age_human(now - t)
                } else {
                    "Unknown".to_owned()
                }
            },
            None => "Unknown".to_owned(),
        }
    }
}

} // verus!
