//! Descendants of a process, found in a snapshot of the process table.
//!
//! A snapshot is a list of `(pid, parent)` rows. It is taken afresh for every walk: the
//! table may change between two snapshots, and nothing found in one is kept for the next.

use vstd::prelude::*;
use vstd::set_lib::{lemma_int_range, lemma_len_subset, set_int_range};

verus! {

/// No pid is listed in two rows of the snapshot.
pub open spec fn pids_distinct(table: Seq<(u32, Option<u32>)>) -> bool {
    forall|x: int, y: int| 0 <= x < y < table.len() ==> table[x].0 != table[y].0
}

/// `child` is listed in the snapshot with `parent` as its parent.
pub open spec fn is_child(table: Seq<(u32, Option<u32>)>, child: u32, parent: u32) -> bool {
    exists|x: int| 0 <= x < table.len() && #[trigger] table[x] == (child, Some(parent))
}

/// Each element of `path` after the first is a child of the one before it.
pub open spec fn is_chain(table: Seq<(u32, Option<u32>)>, path: Seq<u32>) -> bool {
    forall|k: int| 0 <= k < path.len() - 1 ==> is_child(table, #[trigger] path[k + 1], path[k])
}

/// `pid` is reached from `root` by one or more steps from a parent to a child.
pub open spec fn is_descendant(table: Seq<(u32, Option<u32>)>, root: u32, pid: u32) -> bool {
    exists|path: Seq<u32>|
        #![trigger is_chain(table, path), path.last()]
        path.len() >= 2 && path[0] == root && path.last() == pid && is_chain(table, path)
}

/// The parent whose children the walk looks for at step `k`: the root first, then each
/// process found, in the order found.
pub open spec fn parent_at(root: u32, found: Seq<u32>, k: int) -> u32 {
    if k == 0 {
        root
    } else {
        found[k - 1]
    }
}

/// The children of every process in `found`, and of the root, are in `found`.
pub open spec fn closed_under_children(
    table: Seq<(u32, Option<u32>)>,
    root: u32,
    found: Seq<u32>,
) -> bool {
    &&& forall|c: u32| is_child(table, c, root) ==> found.contains(c)
    &&& forall|k: int, c: u32|
        #![trigger is_child(table, c, found[k])]
        0 <= k < found.len() && is_child(table, c, found[k]) ==> found.contains(c)
}

proof fn lemma_chain_end_found(
    table: Seq<(u32, Option<u32>)>,
    root: u32,
    found: Seq<u32>,
    path: Seq<u32>,
)
    requires
        closed_under_children(table, root, found),
        path.len() >= 2,
        path[0] == root,
        is_chain(table, path),
    ensures
        found.contains(path.last()),
    decreases path.len(),
{
    let m = path.len() - 1;
    let k = m - 1;
    assert(is_child(table, path[k + 1], path[k]));
    if path.len() == 2 {
    } else {
        let prefix = path.drop_last();
        assert(is_chain(table, prefix)) by {
            assert forall|k: int| 0 <= k < prefix.len() - 1 implies is_child(
                table,
                #[trigger] prefix[k + 1],
                prefix[k],
            ) by {
                assert(is_child(table, path[k + 1], path[k]));
            }
        }
        lemma_chain_end_found(table, root, found, prefix);
        let i = choose|i: int| 0 <= i < found.len() && found[i] == prefix.last();
        assert(is_child(table, path[m], found[i]));
    }
}

/// Each found process comes from its own row of the table.
pub open spec fn rows_of_found(
    table: Seq<(u32, Option<u32>)>,
    taken: Seq<bool>,
    found: Seq<u32>,
    row_of: Seq<int>,
) -> bool {
    &&& row_of.len() == found.len()
    &&& forall|k: int|
        0 <= k < found.len() ==> 0 <= #[trigger] row_of[k] < table.len() && taken[row_of[k]]
            && table[row_of[k]].0 == found[k]
    &&& forall|k1: int, k2: int| 0 <= k1 < k2 < found.len() ==> row_of[k1] != row_of[k2]
}

/// The processes that descend from `root` in `table`, each listed once for every row
/// that names it, so once when no pid is listed twice. The walk keeps an explicit
/// worklist and stops on cycles.
pub fn descendants(table: &Vec<(u32, Option<u32>)>, root: u32) -> (r: Vec<u32>)
    ensures
        forall|pid: u32| r@.contains(pid) <==> is_descendant(table@, root, pid),
        pids_distinct(table@) ==> r@.no_duplicates(),
{
    let n = table.len();
    let mut taken: Vec<bool> = Vec::new();
    let mut j: usize = 0;
    while j < n
        invariant
            taken.len() == j,
            j <= n,
            forall|x: int| 0 <= x < j ==> !taken@[x],
        decreases n - j,
    {
        taken.push(false);
        j = j + 1;
    }
    let mut found: Vec<u32> = Vec::new();
    let ghost mut rows: Set<int> = Set::empty();
    let ghost mut row_of: Seq<int> = Seq::empty();
    let mut i: usize = 0;
    loop
        invariant
            n == table.len(),
            taken.len() == n,
            found.len() <= n,
            i <= found.len(),
            rows.finite(),
            rows.len() == found.len(),
            rows_of_found(table@, taken@, found@, row_of),
            forall|x: int| rows.contains(x) <==> (0 <= x < n && taken@[x]),
            forall|x: int| 0 <= x < n && taken@[x] ==> found@.contains(#[trigger] table@[x].0),
            forall|k: int| 0 <= k < found.len() ==> is_descendant(table@, root, #[trigger] found@[k]),
            forall|k: int, x: int|
                #![trigger table@[x], parent_at(root, found@, k)]
                0 <= k < i && 0 <= x < n && table@[x].1 == Some(parent_at(root, found@, k))
                    ==> taken@[x],
        ensures
            taken.len() == n,
            rows_of_found(table@, taken@, found@, row_of),
            forall|x: int| 0 <= x < n && taken@[x] ==> found@.contains(#[trigger] table@[x].0),
            forall|k: int| 0 <= k < found.len() ==> is_descendant(table@, root, #[trigger] found@[k]),
            forall|k: int, x: int|
                #![trigger table@[x], parent_at(root, found@, k)]
                0 <= k <= found.len() && 0 <= x < n && table@[x].1 == Some(parent_at(root, found@, k))
                    ==> taken@[x],
        decreases n - i,
    {
        let parent = if i == 0 {
            root
        } else {
            found[i - 1]
        };
        assert(parent == parent_at(root, found@, i as int));
        let ghost f0 = found@;
        let mut x: usize = 0;
        while x < n
            invariant
                n == table.len(),
                taken.len() == n,
                i <= f0.len(),
                f0.len() <= found.len(),
                forall|k: int| 0 <= k < f0.len() ==> found@[k] == f0[k],
                parent == parent_at(root, f0, i as int),
                rows.finite(),
                rows.len() == found.len(),
                rows_of_found(table@, taken@, found@, row_of),
                forall|y: int| rows.contains(y) <==> (0 <= y < n && taken@[y]),
                forall|y: int| 0 <= y < n && taken@[y] ==> found@.contains(#[trigger] table@[y].0),
                forall|k: int| 0 <= k < found.len() ==> is_descendant(table@, root, #[trigger] found@[k]),
                forall|k: int, y: int|
                    #![trigger table@[y], parent_at(root, f0, k)]
                    0 <= k < i && 0 <= y < n && table@[y].1 == Some(parent_at(root, f0, k))
                        ==> taken@[y],
                forall|y: int| 0 <= y < x && table@[y].1 == Some(parent) ==> taken@[y],
                x <= n,
            decreases n - x,
        {
            let (pid, up) = table[x];
            let is_child_row = match up {
                Some(p) => p == parent,
                None => false,
            };
            if is_child_row && !taken[x] {
                proof {
                    assert(table@[x as int] == (pid, Some(parent)));
                    assert(is_child(table@, pid, parent));
                    let path = if i == 0 {
                        let path = seq![root, pid];
                        assert(is_child(table@, path[1], path[0]));
                        path
                    } else {
                        let k = i - 1;
                        assert(found@[k as int] == f0[k as int]);
                        assert(is_descendant(table@, root, found@[k as int]));
                        let p = choose|p: Seq<u32>|
                            #![trigger is_chain(table@, p), p.last()]
                            p.len() >= 2 && p[0] == root && p.last() == found@[k as int]
                                && is_chain(table@, p);
                        let path = p.push(pid);
                        assert forall|m: int| 0 <= m < path.len() - 1 implies is_child(
                            table@,
                            #[trigger] path[m + 1],
                            path[m],
                        ) by {
                            if m < path.len() - 2 {
                                assert(is_child(table@, p[m + 1], p[m]));
                            }
                        }
                        path
                    };
                    assert(is_chain(table@, path));
                    assert(path.last() == pid);
                    rows = rows.insert(x as int);
                    row_of = row_of.push(x as int);
                }
                let ghost old_found = found@;
                let ghost old_taken = taken@;
                taken.set(x, true);
                found.push(pid);
                proof {
                    assert forall|k: int|
                        0 <= k < found.len() implies 0 <= #[trigger] row_of[k] < table@.len()
                            && taken@[row_of[k]] && table@[row_of[k]].0 == found@[k] by {
                        if k < found.len() - 1 {
                            assert(old_taken[row_of[k]]);
                            assert(row_of[k] != x);
                            assert(found@[k] == old_found[k]);
                        }
                    }
                    assert forall|k1: int, k2: int| 0 <= k1 < k2 < found.len() implies row_of[k1]
                        != row_of[k2] by {
                        if k2 == found.len() - 1 {
                            assert(old_taken[row_of[k1]]);
                        }
                    }
                    assert forall|y: int| 0 <= y < n && taken@[y] implies found@.contains(
                        #[trigger] table@[y].0,
                    ) by {
                        if y != x {
                            assert(old_taken[y]);
                            assert(old_found.contains(table@[y].0));
                            let w = choose|w: int| 0 <= w < old_found.len() && old_found[w] == table@[y].0;
                            assert(found@[w] == old_found[w]);
                        } else {
                            assert(found@[found.len() - 1] == pid);
                        }
                    }
                }
            }
            x = x + 1;
        }
        proof {
            lemma_int_range(0, n as int);
            assert(rows.subset_of(set_int_range(0, n as int)));
            lemma_len_subset(rows, set_int_range(0, n as int));
            assert forall|k: int, y: int|
                #![trigger table@[y], parent_at(root, found@, k)]
                0 <= k < i + 1 && 0 <= y < n && table@[y].1 == Some(parent_at(root, found@, k))
                    implies taken@[y] by {
                assert(parent_at(root, found@, k) == parent_at(root, f0, k));
            }
        }
        if i == found.len() {
            break;
        }
        i = i + 1;
    }
    proof {
        assert(closed_under_children(table@, root, found@)) by {
            assert forall|c: u32| is_child(table@, c, root) implies found@.contains(c) by {
                let y = choose|y: int| 0 <= y < table@.len() && #[trigger] table@[y] == (c, Some(root));
                assert(table@[y].1 == Some(parent_at(root, found@, 0)));
                assert(taken@[y]);
                assert(found@.contains(table@[y].0));
            }
            assert forall|k: int, c: u32|
                #![trigger is_child(table@, c, found@[k])]
                0 <= k < found.len() && is_child(table@, c, found@[k]) implies found@.contains(c) by {
                let y = choose|y: int| 0 <= y < table@.len() && #[trigger] table@[y] == (c, Some(found@[k]));
                assert(table@[y].1 == Some(parent_at(root, found@, k + 1)));
                assert(taken@[y]);
                assert(found@.contains(table@[y].0));
            }
        }
        assert forall|pid: u32| is_descendant(table@, root, pid) implies found@.contains(pid) by {
            let path = choose|path: Seq<u32>|
                #![trigger is_chain(table@, path), path.last()]
                path.len() >= 2 && path[0] == root && path.last() == pid && is_chain(table@, path);
            lemma_chain_end_found(table@, root, found@, path);
        }
        if pids_distinct(table@) {
            assert forall|k1: int, k2: int| 0 <= k1 < found.len() && 0 <= k2 < found.len() && k1
                != k2 implies found@[k1] != found@[k2] by {
                let (a, b) = (row_of[k1], row_of[k2]);
                if k1 < k2 {
                    assert(a != b);
                } else {
                    assert(row_of[k2] != row_of[k1]);
                }
                if a < b {
                    assert(table@[a].0 != table@[b].0);
                } else {
                    assert(table@[b].0 != table@[a].0);
                }
            }
        }
        assert forall|pid: u32| found@.contains(pid) implies is_descendant(table@, root, pid) by {
            let k = choose|k: int| 0 <= k < found.len() && found@[k] == pid;
            assert(is_descendant(table@, root, found@[k]));
        }
    }
    found
}

} // verus!
