//! Laws of the discovery walk: which marker directories a scan reports.
//!
//! The central theorem, [`lemma_marker_paths_iff`], characterises
//! `marker_paths` exactly: an index path is reported if and only if it
//! addresses a marker directory with no marker among its proper ancestors
//! below the root. The pruning and completeness laws follow from it.

use vstd::prelude::*;

use crate::scanner::DirTree;
use crate::scanner::entry_matches;
use crate::scanner::NodeModulesEntry;
use crate::scanner::is_marker;
use crate::scanner::is_top_marker;
use crate::scanner::marker_paths;
use crate::scanner::marker_paths_from;
use crate::scanner::node_at;
use crate::scanner::scan_matches;
use crate::scanner::valid_path;

verus! {

proof fn lemma_concat_contains<A>(a: Seq<A>, b: Seq<A>, x: A)
    ensures
        (a + b).contains(x) <==> a.contains(x) || b.contains(x),
{
    if a.contains(x) {
        let k = choose|k: int| 0 <= k < a.len() && a[k] == x;
        assert((a + b)[k] == x);
    }
    if b.contains(x) {
        let k = choose|k: int| 0 <= k < b.len() && b[k] == x;
        assert((a + b)[a.len() + k] == x);
    }
    if (a + b).contains(x) {
        let k = choose|k: int| 0 <= k < (a + b).len() && (a + b)[k] == x;
        if k < a.len() {
            assert(a[k] == x);
        } else {
            assert(b[k - a.len()] == x);
        }
    }
}

proof fn lemma_map_prepend_contains(s: Seq<Seq<int>>, i: int, x: Seq<int>)
    ensures
        s.map_values(|p: Seq<int>| seq![i] + p).contains(x) <==> (x.len() >= 1 && x[0] == i
            && s.contains(x.drop_first())),
{
    let m = s.map_values(|p: Seq<int>| seq![i] + p);
    if m.contains(x) {
        let k = choose|k: int| 0 <= k < m.len() && m[k] == x;
        assert(x == seq![i] + s[k]);
        assert(x.drop_first() =~= s[k]);
    }
    if x.len() >= 1 && x[0] == i && s.contains(x.drop_first()) {
        let k = choose|k: int| 0 <= k < s.len() && s[k] == x.drop_first();
        assert(m[k] == seq![i] + x.drop_first());
        assert(seq![i] + x.drop_first() =~= x);
    }
}

proof fn lemma_marker_paths_from_contains(t: DirTree, i: int, x: Seq<int>)
    requires
        0 <= i <= t.subdirs.len(),
    ensures
        marker_paths_from(t, i).contains(x) <==> (x.len() >= 1 && i <= x[0] < t.subdirs.len()
            && (if is_marker(t.subdirs[x[0]]) {
            x.len() == 1
        } else {
            marker_paths(t.subdirs[x[0]]).contains(x.drop_first())
        })),
    decreases t.subdirs.len() - i,
{
    if i < t.subdirs.len() {
        let added = if is_marker(t.subdirs[i]) {
            seq![seq![i]]
        } else {
            marker_paths(t.subdirs[i]).map_values(|p: Seq<int>| seq![i] + p)
        };
        assert(marker_paths_from(t, i) == added + marker_paths_from(t, i + 1));
        lemma_concat_contains(added, marker_paths_from(t, i + 1), x);
        lemma_marker_paths_from_contains(t, i + 1, x);
        if is_marker(t.subdirs[i]) {
            if added.contains(x) {
                assert(x == seq![i]);
            }
            if x.len() == 1 && x[0] == i {
                assert(x =~= seq![i]);
                assert(added[0] == x);
            }
        } else {
            lemma_map_prepend_contains(marker_paths(t.subdirs[i]), i, x);
        }
    }
}

/// The characterisation of discovery: an index path is reported exactly when
/// it addresses a marker directory none of whose proper ancestors below the
/// root is itself a marker.
pub proof fn lemma_marker_paths_iff(t: DirTree, x: Seq<int>)
    ensures
        marker_paths(t).contains(x) <==> is_top_marker(t, x),
    decreases t,
{
    lemma_marker_paths_from_contains(t, 0, x);
    if x.len() >= 1 && 0 <= x[0] < t.subdirs.len() {
        let c = t.subdirs[x[0]];
        let rest = x.drop_first();
        assert(valid_path(t, x) == valid_path(c, rest));
        assert(node_at(t, x) == node_at(c, rest));
        assert forall|j: int| 1 <= j < x.len() implies node_at(t, #[trigger] x.take(j)) == (if j
            == 1 {
            c
        } else {
            node_at(c, rest.take(j - 1))
        }) by {
            assert(x.take(j).len() == j);
            assert(x.take(j)[0] == x[0]);
            assert(x.take(j).drop_first() =~= rest.take(j - 1));
            if j == 1 {
                assert(rest.take(0) =~= Seq::<int>::empty());
                assert(node_at(c, x.take(1).drop_first()) == c);
            }
        }
        if is_marker(c) {
            if marker_paths(t).contains(x) {
                // the reported path is exactly the child, and nothing below
                // the root sits between them
                assert(x.len() == 1);
                assert(rest =~= Seq::<int>::empty());
                assert(node_at(c, rest) == c);
                assert(is_top_marker(t, x));
            }
            if is_top_marker(t, x) {
                if x.len() > 1 {
                    assert(node_at(t, x.take(1)) == c);
                    assert(!is_marker(node_at(t, x.take(1))));
                    assert(false);
                }
            }
        } else {
            lemma_marker_paths_iff(c, rest);
            if marker_paths(t).contains(x) {
                assert(is_top_marker(c, rest));
                assert(valid_path(t, x));
                assert(x.len() >= 2);
                assert(is_marker(node_at(t, x)));
                assert forall|j: int| 1 <= j < x.len() implies !is_marker(
                    node_at(t, #[trigger] x.take(j)),
                ) by {
                    if j > 1 {
                        assert(node_at(t, x.take(j)) == node_at(c, rest.take(j - 1)));
                        assert(!is_marker(node_at(c, rest.take(j - 1))));
                    }
                }
                assert(is_top_marker(t, x));
            }
            if is_top_marker(t, x) {
                if x.len() == 1 {
                    assert(rest =~= Seq::<int>::empty());
                    assert(node_at(c, rest) == c);
                    assert(false);
                }
                assert(rest.len() >= 1);
                assert(valid_path(c, rest));
                assert(is_marker(node_at(c, rest)));
                assert forall|j: int| 1 <= j < rest.len() implies !is_marker(
                    node_at(c, #[trigger] rest.take(j)),
                ) by {
                    assert(node_at(t, x.take(j + 1)) == node_at(c, rest.take(j)));
                    assert(!is_marker(node_at(t, x.take(j + 1))));
                }
                assert(is_top_marker(c, rest));
            }
        }
    } else {
        if marker_paths(t).contains(x) {
            assert(false);
        }
        if is_top_marker(t, x) {
            assert(false);
        }
    }
}

/// Pruning: a marker directory that sits strictly inside another marker
/// directory is never reported.
pub proof fn lemma_pruning(t: DirTree, x: Seq<int>, j: int)
    requires
        valid_path(t, x),
        x.len() >= 1,
        is_marker(node_at(t, x)),
        1 <= j < x.len(),
        is_marker(node_at(t, x.take(j))),
    ensures
        !marker_paths(t).contains(x),
{
    lemma_marker_paths_iff(t, x);
}

/// Completeness: two distinct top-level marker directories, wherever they sit
/// in the tree, are both reported, so a scan finds at least the two of them.
pub proof fn lemma_two_markers(t: DirTree, x: Seq<int>, y: Seq<int>)
    requires
        is_top_marker(t, x),
        is_top_marker(t, y),
        x != y,
    ensures
        marker_paths(t).contains(x),
        marker_paths(t).contains(y),
        marker_paths(t).len() >= 2,
{
    lemma_marker_paths_iff(t, x);
    lemma_marker_paths_iff(t, y);
    let mp = marker_paths(t);
    let kx = choose|k: int| 0 <= k < mp.len() && mp[k] == x;
    let ky = choose|k: int| 0 <= k < mp.len() && mp[k] == y;
    assert(kx != ky);
}

/// Soundness of a scan result: each reported entry describes a top-level
/// marker directory. A marker nested inside another marker is not top-level,
/// so no entry ever describes one.
pub proof fn lemma_scan_reports_top_markers(
    t: DirTree,
    prefix: Seq<char>,
    es: Seq<NodeModulesEntry>,
    k: int,
)
    requires
        scan_matches(t, prefix, es),
        0 <= k < es.len(),
    ensures
        is_top_marker(t, marker_paths(t)[k]),
        entry_matches(t, prefix, marker_paths(t)[k], es[k]),
{
    assert(marker_paths(t).contains(marker_paths(t)[k]));
    lemma_marker_paths_iff(t, marker_paths(t)[k]);
}

/// Completeness of a scan result: every top-level marker directory is
/// reported by some entry.
pub proof fn lemma_scan_finds_marker(
    t: DirTree,
    prefix: Seq<char>,
    es: Seq<NodeModulesEntry>,
    x: Seq<int>,
)
    requires
        scan_matches(t, prefix, es),
        is_top_marker(t, x),
    ensures
        exists|k: int| 0 <= k < es.len() && entry_matches(t, prefix, x, #[trigger] es[k]),
{
    lemma_marker_paths_iff(t, x);
    let mp = marker_paths(t);
    let k = choose|k: int| 0 <= k < mp.len() && mp[k] == x;
    assert(entry_matches(t, prefix, x, es[k]));
}

/// A scan of a directory with no subdirectories succeeds with an empty
/// result.
pub proof fn lemma_scan_empty(t: DirTree, prefix: Seq<char>, es: Seq<NodeModulesEntry>)
    requires
        t.subdirs@.len() == 0,
        scan_matches(t, prefix, es),
    ensures
        es.len() == 0,
{
    assert(marker_paths(t).len() == 0);
}

} // verus!
