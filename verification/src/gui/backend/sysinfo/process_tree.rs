//! The tree view of the process list: processes nested under their parents.
use vstd::prelude::*;

verus! {

/// One row of the tree view: the process at `index` in the given order, and
/// how deep it is nested.
#[derive(Debug, Clone, Copy, PartialEq, Eq, Structural)]
pub struct TreeRow {
    pub index: usize,
    pub pid: u32,
    pub depth: usize,
}

/// The process at `j` is the parent of the one at `i`.
pub open spec fn parent_at(ordered: Seq<u32>, parents: Seq<Option<u32>>, i: int, j: int) -> bool {
    0 <= j < ordered.len() && parents[i] == Some(ordered[j])
}

/// The parent of the process at `i` is not in the list.
pub open spec fn is_tree_root(ordered: Seq<u32>, parents: Seq<Option<u32>>, i: int) -> bool {
    forall|j: int| !#[trigger] parent_at(ordered, parents, i, j)
}

/// Following parents from `i` reaches a root within `f` steps.
pub open spec fn rooted_within(ordered: Seq<u32>, parents: Seq<Option<u32>>, i: int, f: nat) -> bool
    decreases f,
{
    if f == 0 {
        false
    } else {
        is_tree_root(ordered, parents, i) || exists|j: int|
            #[trigger] parent_at(ordered, parents, i, j) && rooted_within(
                ordered,
                parents,
                j,
                (f - 1) as nat,
            )
    }
}

/// Following parents from `i` reaches a root (it does not run into a cycle).
pub open spec fn rooted(ordered: Seq<u32>, parents: Seq<Option<u32>>, i: int) -> bool {
    exists|f: nat| #[trigger] rooted_within(ordered, parents, i, f)
}

/// Following parents from the process at `x` reaches the one at `y` within
/// `f` steps.
pub open spec fn descends_within(ordered: Seq<u32>, parents: Seq<Option<u32>>, x: int, y: int, f: nat) -> bool
    decreases f,
{
    if f == 0 {
        false
    } else {
        parent_at(ordered, parents, x, y) || exists|j: int|
            #[trigger] parent_at(ordered, parents, x, j) && descends_within(
                ordered,
                parents,
                j,
                y,
                (f - 1) as nat,
            )
    }
}

/// The process at `x` is below the one at `y` in the tree: `y` is its parent,
/// its parent's parent, and so on.
pub open spec fn descends(ordered: Seq<u32>, parents: Seq<Option<u32>>, x: int, y: int) -> bool {
    exists|f: nat| #[trigger] descends_within(ordered, parents, x, y, f)
}

/// No process identifier occurs twice.
pub open spec fn distinct_pids(ordered: Seq<u32>) -> bool {
    forall|a: int, b: int|
        0 <= a < ordered.len() && 0 <= b < ordered.len() && a != b ==> #[trigger] ordered[a]
            != #[trigger] ordered[b]
}

/// Some row shows the process at `i`.
pub open spec fn shows(rows: Seq<TreeRow>, i: int) -> bool {
    exists|k: int| 0 <= k < rows.len() && rows[k].index == i
}

/// A row at `k` is placed as the tree view places it: a root at depth zero,
/// any other process one level below its parent's row, which comes earlier.
pub open spec fn placed_under_parent(
    ordered: Seq<u32>,
    parents: Seq<Option<u32>>,
    rows: Seq<TreeRow>,
    k: int,
) -> bool {
    let i = rows[k].index as int;
    &&& is_tree_root(ordered, parents, i) ==> rows[k].depth == 0
    &&& forall|j: int|
        #[trigger] parent_at(ordered, parents, i, j) ==> exists|q: int|
            0 <= q < k && rows[q].index == j && rows[k].depth == rows[q].depth + 1
}

proof fn lemma_root_rooted(ordered: Seq<u32>, parents: Seq<Option<u32>>, i: int)
    requires
        is_tree_root(ordered, parents, i),
    ensures
        rooted(ordered, parents, i),
{
    assert(rooted_within(ordered, parents, i, 1));
}

proof fn lemma_child_rooted(ordered: Seq<u32>, parents: Seq<Option<u32>>, c: int, i: int)
    requires
        rooted(ordered, parents, i),
        parent_at(ordered, parents, c, i),
    ensures
        rooted(ordered, parents, c),
{
    let f = choose|f: nat| #[trigger] rooted_within(ordered, parents, i, f);
    assert(rooted_within(ordered, parents, c, f + 1));
}

/// The position of `pid` in `ordered`, if it is there.
fn position_of(ordered: &Vec<u32>, pid: Option<u32>) -> (r: Option<usize>)
    requires
        distinct_pids(ordered@),
    ensures
        match r {
            Some(j) => j < ordered@.len() && pid == Some(ordered@[j as int]),
            None => forall|j: int| 0 <= j < ordered@.len() ==> pid != Some(ordered@[j]),
        },
{
    match pid {
        None => None,
        Some(p) => {
            assert(pid == Some(p));
            let mut j: usize = 0;
            while j < ordered.len()
                invariant
                    j <= ordered@.len(),
                    pid == Some(p),
                    forall|q: int| 0 <= q < j ==> ordered@[q] != p,
                decreases ordered@.len() - j,
            {
                if ordered[j] == p {
                    assert(pid == Some(ordered@[j as int]));
                    return Some(j);
                }
                j = j + 1;
            }
            None
        },
    }
}

proof fn lemma_placed_push(
    ordered: Seq<u32>,
    parents: Seq<Option<u32>>,
    rows: Seq<TreeRow>,
    row: TreeRow,
    k: int,
)
    requires
        0 <= k < rows.len(),
        placed_under_parent(ordered, parents, rows, k),
    ensures
        placed_under_parent(ordered, parents, rows.push(row), k),
{
    let i = rows[k].index as int;
    assert forall|j: int| #[trigger] parent_at(ordered, parents, i, j) implies exists|q: int|
        0 <= q < k && rows.push(row)[q].index == j && rows.push(row)[k].depth == rows.push(
            row,
        )[q].depth + 1 by {
        let q = choose|q: int| 0 <= q < k && rows[q].index == j && rows[k].depth == rows[q].depth + 1;
        assert(rows.push(row)[q] == rows[q]);
    }
}

/// Each row shows a visited, rooted process of the list, placed under its
/// parent, and no deeper than its position.
#[verifier::opaque]
spec fn rows_ok(ordered: Seq<u32>, parents: Seq<Option<u32>>, visited: Seq<bool>, rows: Seq<TreeRow>) -> bool {
    forall|k: int|
        0 <= k < rows.len() ==> {
            &&& #[trigger] rows[k].index < ordered.len()
            &&& rows[k].pid == ordered[rows[k].index as int]
            &&& visited[rows[k].index as int]
            &&& rooted(ordered, parents, rows[k].index as int)
            &&& rows[k].depth <= k
            &&& placed_under_parent(ordered, parents, rows, k)
        }
}

/// What a waiting entry `(i, d)` promises: `i` is a visited, rooted process
/// whose row will be `d` deep, one below its parent's row.
spec fn entry_ok(
    ordered: Seq<u32>,
    parents: Seq<Option<u32>>,
    visited: Seq<bool>,
    rows: Seq<TreeRow>,
    entry: (usize, usize),
) -> bool {
    let (i, d) = entry;
    &&& i < ordered.len()
    &&& visited[i as int]
    &&& rooted(ordered, parents, i as int)
    &&& d <= rows.len()
    &&& is_tree_root(ordered, parents, i as int) ==> d == 0
    &&& forall|j: int|
        #[trigger] parent_at(ordered, parents, i as int, j) ==> exists|q: int|
            0 <= q < rows.len() && rows[q].index == j && d == rows[q].depth + 1
}

/// Every waiting entry keeps its promise.
#[verifier::opaque]
spec fn stack_ok(
    ordered: Seq<u32>,
    parents: Seq<Option<u32>>,
    visited: Seq<bool>,
    rows: Seq<TreeRow>,
    stack: Seq<(usize, usize)>,
) -> bool {
    forall|s: int| 0 <= s < stack.len() ==> entry_ok(ordered, parents, visited, rows, #[trigger] stack[s])
}

/// No process is shown or waiting twice.
#[verifier::opaque]
spec fn all_distinct(rows: Seq<TreeRow>, stack: Seq<(usize, usize)>) -> bool {
    &&& forall|a: int, b: int|
        0 <= a < rows.len() && 0 <= b < rows.len() && a != b ==> #[trigger] rows[a].index
            != #[trigger] rows[b].index
    &&& forall|a: int, b: int|
        0 <= a < stack.len() && 0 <= b < stack.len() && a != b ==> #[trigger] stack[a].0
            != #[trigger] stack[b].0
    &&& forall|a: int, b: int|
        0 <= a < rows.len() && 0 <= b < stack.len() ==> #[trigger] rows[a].index
            != #[trigger] stack[b].0
}

/// Some row shows `x` or some entry waits for it.
spec fn shown_or_waiting(rows: Seq<TreeRow>, stack: Seq<(usize, usize)>, x: int) -> bool {
    shows(rows, x) || exists|s: int| 0 <= s < stack.len() && #[trigger] stack[s].0 == x
}

/// Every visited process is shown or waiting.
#[verifier::opaque]
spec fn covered(n: int, visited: Seq<bool>, rows: Seq<TreeRow>, stack: Seq<(usize, usize)>) -> bool {
    forall|x: int| 0 <= x < n && #[trigger] visited[x] ==> shown_or_waiting(rows, stack, x)
}

/// What holds between the steps of the walk.
spec fn walk_state(
    ordered: Seq<u32>,
    parents: Seq<Option<u32>>,
    visited: Seq<bool>,
    rows: Seq<TreeRow>,
    stack: Seq<(usize, usize)>,
) -> bool {
    &&& visited.len() == ordered.len()
    &&& rows_ok(ordered, parents, visited, rows)
    &&& stack_ok(ordered, parents, visited, rows, stack)
    &&& all_distinct(rows, stack)
    &&& covered(ordered.len() as int, visited, rows, stack)
}

/// The facts about the rows that the walk's callers use.
proof fn lemma_rows_facts(
    ordered: Seq<u32>,
    parents: Seq<Option<u32>>,
    visited: Seq<bool>,
    rows: Seq<TreeRow>,
    stack: Seq<(usize, usize)>,
)
    requires
        walk_state(ordered, parents, visited, rows, stack),
    ensures
        forall|k: int|
            0 <= k < rows.len() ==> {
                &&& #[trigger] rows[k].index < ordered.len()
                &&& rows[k].pid == ordered[rows[k].index as int]
                &&& visited[rows[k].index as int]
                &&& rooted(ordered, parents, rows[k].index as int)
                &&& placed_under_parent(ordered, parents, rows, k)
            },
        forall|a: int, b: int|
            0 <= a < rows.len() && 0 <= b < rows.len() && a != b ==> #[trigger] rows[a].index
                != #[trigger] rows[b].index,
        stack.len() == 0 ==> forall|x: int|
            0 <= x < ordered.len() && #[trigger] visited[x] ==> shows(rows, x),
        forall|s: int| 0 <= s < stack.len() ==> (#[trigger] stack[s]).0 < ordered.len(),
{
    reveal(rows_ok);
    reveal(all_distinct);
    reveal(covered);
    reveal(stack_ok);
    assert forall|s: int| 0 <= s < stack.len() implies (#[trigger] stack[s]).0 < ordered.len() by {
        assert(entry_ok(ordered, parents, visited, rows, stack[s]));
    }
}

/// Starting a walk at an unvisited root keeps the walk's state.
proof fn lemma_start_walk(
    ordered: Seq<u32>,
    parents: Seq<Option<u32>>,
    visited: Seq<bool>,
    rows: Seq<TreeRow>,
    r: usize,
)
    requires
        walk_state(ordered, parents, visited, rows, Seq::empty()),
        r < ordered.len(),
        is_tree_root(ordered, parents, r as int),
        !visited[r as int],
    ensures
        walk_state(ordered, parents, visited.update(r as int, true), rows, seq![(r, 0usize)]),
{
    let v2 = visited.update(r as int, true);
    let st = seq![(r, 0usize)];
    assert(st[0] == (r, 0usize));
    lemma_root_rooted(ordered, parents, r as int);
    assert(rows_ok(ordered, parents, v2, rows)) by {
        reveal(rows_ok);
    }
    assert(stack_ok(ordered, parents, v2, rows, st)) by {
        reveal(stack_ok);
        assert(entry_ok(ordered, parents, v2, rows, st[0]));
    }
    assert(all_distinct(rows, st)) by {
        reveal(all_distinct);
        reveal(rows_ok);
        assert forall|a: int, b: int|
            0 <= a < rows.len() && 0 <= b < st.len() implies #[trigger] rows[a].index
            != #[trigger] st[b].0 by {
            assert(visited[rows[a].index as int]);
        }
    }
    assert(covered(ordered.len() as int, v2, rows, st)) by {
        reveal(covered);
        assert forall|x: int| 0 <= x < ordered.len() && #[trigger] v2[x] implies shown_or_waiting(
            rows,
            st,
            x,
        ) by {
            if x == r as int {
                assert(st[0].0 == x);
            } else {
                assert(visited[x]);
                assert(shown_or_waiting(rows, Seq::empty(), x));
            }
        }
    }
}

/// Popping the top of the stack into a new row keeps the walk's state.
proof fn lemma_pop_into_row(
    ordered: Seq<u32>,
    parents: Seq<Option<u32>>,
    visited: Seq<bool>,
    rows: Seq<TreeRow>,
    stack: Seq<(usize, usize)>,
)
    requires
        walk_state(ordered, parents, visited, rows, stack),
        stack.len() > 0,
    ensures
        stack.last().0 < ordered.len(),
        stack.last().1 <= rows.len(),
        walk_state(
            ordered,
            parents,
            visited,
            rows.push(
                TreeRow {
                    index: stack.last().0,
                    pid: ordered[stack.last().0 as int],
                    depth: stack.last().1,
                },
            ),
            stack.drop_last(),
        ),
{
    let (i, d) = stack.last();
    let row = TreeRow { index: i, pid: ordered[i as int], depth: d };
    let rows2 = rows.push(row);
    let stack2 = stack.drop_last();
    let last = stack.len() - 1;
    assert(stack[last] == (i, d));
    assert(entry_ok(ordered, parents, visited, rows, stack[last])) by {
        reveal(stack_ok);
    }
    assert(rows_ok(ordered, parents, visited, rows2)) by {
        reveal(rows_ok);
        assert forall|k: int| 0 <= k < rows2.len() implies {
            &&& #[trigger] rows2[k].index < ordered.len()
            &&& rows2[k].pid == ordered[rows2[k].index as int]
            &&& visited[rows2[k].index as int]
            &&& rooted(ordered, parents, rows2[k].index as int)
            &&& rows2[k].depth <= k
            &&& placed_under_parent(ordered, parents, rows2, k)
        } by {
            if k < rows.len() {
                assert(rows2[k] == rows[k]);
                lemma_placed_push(ordered, parents, rows, row, k);
            } else {
                assert(rows2[k] == row);
                let ii = i as int;
                assert forall|j: int| #[trigger] parent_at(ordered, parents, ii, j) implies exists|q: int|
                    0 <= q < k && rows2[q].index == j && rows2[k].depth == rows2[q].depth + 1 by {
                    let q = choose|q: int|
                        0 <= q < rows.len() && rows[q].index == j && d == rows[q].depth + 1;
                    assert(rows2[q] == rows[q]);
                }
            }
        }
    }
    assert(stack_ok(ordered, parents, visited, rows2, stack2)) by {
        reveal(stack_ok);
        assert forall|s: int| 0 <= s < stack2.len() implies entry_ok(
            ordered,
            parents,
            visited,
            rows2,
            #[trigger] stack2[s],
        ) by {
            assert(stack2[s] == stack[s]);
            assert(entry_ok(ordered, parents, visited, rows, stack[s]));
            let (x, e) = stack[s];
            assert forall|j: int| #[trigger] parent_at(ordered, parents, x as int, j) implies exists|q: int|
                0 <= q < rows2.len() && rows2[q].index == j && e == rows2[q].depth + 1 by {
                let q = choose|q: int|
                    0 <= q < rows.len() && rows[q].index == j && e == rows[q].depth + 1;
                assert(rows2[q] == rows[q]);
            }
        }
    }
    assert(all_distinct(rows2, stack2)) by {
        reveal(all_distinct);
        assert forall|a: int, b: int|
            0 <= a < rows2.len() && 0 <= b < rows2.len() && a != b implies #[trigger] rows2[a].index
            != #[trigger] rows2[b].index by {
            if a == rows.len() {
                assert(rows[b].index != stack[last].0);
            } else if b == rows.len() {
                assert(rows[a].index != stack[last].0);
            }
        }
        assert forall|a: int, b: int|
            0 <= a < stack2.len() && 0 <= b < stack2.len() && a != b implies #[trigger] stack2[a].0
            != #[trigger] stack2[b].0 by {
            assert(stack2[a] == stack[a]);
            assert(stack2[b] == stack[b]);
        }
        assert forall|a: int, b: int|
            0 <= a < rows2.len() && 0 <= b < stack2.len() implies #[trigger] rows2[a].index
            != #[trigger] stack2[b].0 by {
            assert(stack2[b] == stack[b]);
            if a == rows.len() {
                assert(stack[last].0 != stack[b].0);
            }
        }
    }
    assert(covered(ordered.len() as int, visited, rows2, stack2)) by {
        reveal(covered);
        assert forall|x: int| 0 <= x < ordered.len() && #[trigger] visited[x] implies shown_or_waiting(
            rows2,
            stack2,
            x,
        ) by {
            assert(shown_or_waiting(rows, stack, x));
            if shows(rows, x) {
                let k = choose|k: int| 0 <= k < rows.len() && rows[k].index == x;
                assert(rows2[k] == rows[k]);
            } else {
                let s = choose|s: int| 0 <= s < stack.len() && #[trigger] stack[s].0 == x;
                if s == last {
                    assert(rows2[rows.len() as int].index == x);
                } else {
                    assert(stack2[s] == stack[s]);
                }
            }
        }
    }
}

/// Marking an unvisited child of the last row and pushing it one level
/// deeper keeps the walk's state.
#[verifier::rlimit(40)]
proof fn lemma_push_child(
    ordered: Seq<u32>,
    parents: Seq<Option<u32>>,
    visited: Seq<bool>,
    rows: Seq<TreeRow>,
    stack: Seq<(usize, usize)>,
    c: usize,
)
    requires
        walk_state(ordered, parents, visited, rows, stack),
        distinct_pids(ordered),
        rows.len() > 0,
        rows.len() <= usize::MAX,
        c < ordered.len(),
        !visited[c as int],
        parent_at(ordered, parents, c as int, rows.last().index as int),
    ensures
        rows.last().depth < rows.len(),
        walk_state(
            ordered,
            parents,
            visited.update(c as int, true),
            rows,
            stack.push((c, (rows.last().depth + 1) as usize)),
        ),
{
    let last = rows.len() - 1;
    let i = rows[last].index as int;
    let d = rows[last].depth;
    let e = (d + 1) as usize;
    let v2 = visited.update(c as int, true);
    let stack2 = stack.push((c, e));
    assert(rows[last].depth <= last && rooted(ordered, parents, i) && visited[i]) by {
        reveal(rows_ok);
    }
    lemma_child_rooted(ordered, parents, c as int, i);
    assert(rows_ok(ordered, parents, v2, rows)) by {
        reveal(rows_ok);
    }
    assert(stack_ok(ordered, parents, v2, rows, stack2)) by {
        reveal(stack_ok);
        assert forall|s: int| 0 <= s < stack2.len() implies entry_ok(
            ordered,
            parents,
            v2,
            rows,
            #[trigger] stack2[s],
        ) by {
            if s < stack.len() {
                assert(stack2[s] == stack[s]);
                assert(entry_ok(ordered, parents, visited, rows, stack[s]));
            } else {
                assert(stack2[s] == (c, e));
                assert forall|j: int| #[trigger] parent_at(ordered, parents, c as int, j) implies exists|q: int|
                    0 <= q < rows.len() && rows[q].index == j && e == rows[q].depth + 1 by {
                    assert(parent_at(ordered, parents, c as int, i));
                    assert(0 <= i < ordered.len());
                    assert(ordered[j] == ordered[i]);
                    assert(j == i);
                    assert(rows[last].index == j);
                    assert(e == rows[last].depth + 1);
                }
            }
        }
    }
    assert(all_distinct(rows, stack2)) by {
        reveal(all_distinct);
        reveal(rows_ok);
        reveal(stack_ok);
        assert forall|a: int, b: int|
            0 <= a < stack2.len() && 0 <= b < stack2.len() && a != b implies #[trigger] stack2[a].0
            != #[trigger] stack2[b].0 by {
            if a == stack.len() {
                assert(entry_ok(ordered, parents, visited, rows, stack[b]));
            } else if b == stack.len() {
                assert(entry_ok(ordered, parents, visited, rows, stack[a]));
            } else {
                assert(stack2[a] == stack[a]);
                assert(stack2[b] == stack[b]);
            }
        }
        assert forall|a: int, b: int|
            0 <= a < rows.len() && 0 <= b < stack2.len() implies #[trigger] rows[a].index
            != #[trigger] stack2[b].0 by {
            if b == stack.len() {
                assert(visited[rows[a].index as int]);
            } else {
                assert(stack2[b] == stack[b]);
            }
        }
    }
    assert(covered(ordered.len() as int, v2, rows, stack2)) by {
        reveal(covered);
        assert forall|x: int| 0 <= x < ordered.len() && #[trigger] v2[x] implies shown_or_waiting(
            rows,
            stack2,
            x,
        ) by {
            if x == c as int {
                assert(stack2[stack.len() as int].0 == x);
            } else {
                assert(visited[x]);
                assert(shown_or_waiting(rows, stack, x));
                if !shows(rows, x) {
                    let s = choose|s: int| 0 <= s < stack.len() && #[trigger] stack[s].0 == x;
                    assert(stack2[s] == stack[s]);
                }
            }
        }
    }
}

/// Nothing visited, nothing shown, nothing waiting.
proof fn lemma_empty_walk(ordered: Seq<u32>, parents: Seq<Option<u32>>, visited: Seq<bool>)
    requires
        visited.len() == ordered.len(),
        forall|x: int| 0 <= x < visited.len() ==> !#[trigger] visited[x],
    ensures
        walk_state(ordered, parents, visited, Seq::empty(), Seq::empty()),
{
    reveal(rows_ok);
    reveal(stack_ok);
    reveal(all_distinct);
    reveal(covered);
}

/// A row's placement depends only on the rows up to it.
proof fn lemma_placed_prefix(
    ordered: Seq<u32>,
    parents: Seq<Option<u32>>,
    prefix: Seq<TreeRow>,
    rows: Seq<TreeRow>,
    k: int,
)
    requires
        0 <= k < prefix.len() <= rows.len(),
        forall|q: int| 0 <= q < prefix.len() ==> #[trigger] rows[q] == prefix[q],
        placed_under_parent(ordered, parents, prefix, k),
    ensures
        placed_under_parent(ordered, parents, rows, k),
{
    let i = rows[k].index as int;
    assert(rows[k] == prefix[k]);
    assert forall|j: int| #[trigger] parent_at(ordered, parents, i, j) implies exists|q: int|
        0 <= q < k && rows[q].index == j && rows[k].depth == rows[q].depth + 1 by {
        let q = choose|q: int|
            0 <= q < k && prefix[q].index == j && prefix[k].depth == prefix[q].depth + 1;
        assert(rows[q] == prefix[q]);
    }
}

/// Every process whose parent chain reaches a root has been visited, given
/// that the roots have been, that the children of every row have been, and
/// that every visited process has a row.
proof fn lemma_rooted_visited(
    ordered: Seq<u32>,
    parents: Seq<Option<u32>>,
    visited: Seq<bool>,
    rows: Seq<TreeRow>,
    x: int,
    f: nat,
)
    requires
        visited.len() == ordered.len(),
        0 <= x < ordered.len(),
        forall|y: int|
            0 <= y < ordered.len() && #[trigger] is_tree_root(ordered, parents, y) ==> visited[y],
        forall|k: int, c: int|
            0 <= k < rows.len() && 0 <= c < ordered.len() && #[trigger] parent_at(
                ordered,
                parents,
                c,
                rows[k].index as int,
            ) ==> visited[c],
        forall|y: int| 0 <= y < ordered.len() && #[trigger] visited[y] ==> shows(rows, y),
        rooted_within(ordered, parents, x, f),
    ensures
        visited[x],
    decreases f,
{
    if !is_tree_root(ordered, parents, x) {
        let j = choose|j: int|
            #[trigger] parent_at(ordered, parents, x, j) && rooted_within(
                ordered,
                parents,
                j,
                (f - 1) as nat,
            );
        lemma_rooted_visited(ordered, parents, visited, rows, j, (f - 1) as nat);
        assert(shows(rows, j));
        let k = choose|k: int| 0 <= k < rows.len() && rows[k].index == j;
        assert(parent_at(ordered, parents, x, rows[k].index as int));
    }
}

/// Rows show distinct processes of the list, so there are no more rows than
/// processes.
proof fn lemma_rows_bounded(rows: Seq<TreeRow>, n: int)
    requires
        0 <= n,
        forall|k: int| 0 <= k < rows.len() ==> #[trigger] rows[k].index < n,
        forall|a: int, b: int|
            0 <= a < rows.len() && 0 <= b < rows.len() && a != b ==> #[trigger] rows[a].index
                != #[trigger] rows[b].index,
    ensures
        rows.len() <= n,
{
    let ix = Seq::new(rows.len(), |k: int| rows[k].index as int);
    assert(ix.no_duplicates());
    ix.unique_seq_to_set();
    vstd::set_lib::lemma_int_range(0, n);
    assert forall|x: int| ix.to_set().contains(x) implies vstd::set_lib::set_int_range(
        0,
        n,
    ).contains(x) by {
        let k = choose|k: int| 0 <= k < ix.len() && ix[k] == x;
        assert(rows[k].index < n);
    }
    vstd::set_lib::lemma_len_subset(ix.to_set(), vstd::set_lib::set_int_range(0, n));
}

/// The parent of a process whose parent chain reaches a root also reaches one.
proof fn lemma_parent_rooted(ordered: Seq<u32>, parents: Seq<Option<u32>>, c: int, j: int)
    requires
        distinct_pids(ordered),
        rooted(ordered, parents, c),
        parent_at(ordered, parents, c, j),
    ensures
        rooted(ordered, parents, j),
{
    let f = choose|f: nat| #[trigger] rooted_within(ordered, parents, c, f);
    assert(!is_tree_root(ordered, parents, c));
    let j2 = choose|j2: int|
        #[trigger] parent_at(ordered, parents, c, j2) && rooted_within(ordered, parents, j2, (f - 1) as nat);
    assert(ordered[j2] == ordered[j]);
    assert(j2 == j);
    assert(rooted_within(ordered, parents, j, (f - 1) as nat));
}

/// A process has at most one parent in the list.
proof fn lemma_one_parent(ordered: Seq<u32>, parents: Seq<Option<u32>>, c: int, j1: int, j2: int)
    requires
        distinct_pids(ordered),
        parent_at(ordered, parents, c, j1),
        parent_at(ordered, parents, c, j2),
    ensures
        j1 == j2,
{
    assert(ordered[j1] == ordered[j2]);
}

/// The order the depth-first walk keeps: every row between a row and its
/// parent's row is deeper than the parent; a waiting entry is no shallower
/// than the rows after its parent's row, and entries deepen towards the top;
/// children of one process are shown, and wait, in listing order, the next
/// to be shown on top.
#[verifier::opaque]
spec fn order_ok(ordered: Seq<u32>, parents: Seq<Option<u32>>, rows: Seq<TreeRow>, stack: Seq<(usize, usize)>) -> bool {
    &&& forall|q: int, m: int, k: int|
        #![trigger parent_at(ordered, parents, rows[k].index as int, rows[q].index as int), rows[m]]
        0 <= q < m < k < rows.len() && parent_at(ordered, parents, rows[k].index as int, rows[q].index as int)
            ==> rows[m].depth > rows[q].depth
    &&& forall|s: int, q: int, m: int|
        #![trigger parent_at(ordered, parents, stack[s].0 as int, rows[q].index as int), rows[m]]
        0 <= s < stack.len() && 0 <= q < m < rows.len() && parent_at(
            ordered,
            parents,
            stack[s].0 as int,
            rows[q].index as int,
        ) ==> rows[m].depth >= stack[s].1
    &&& forall|s: int, t: int| 0 <= s < t < stack.len() ==> #[trigger] stack[s].1 <= #[trigger] stack[t].1
    &&& forall|a: int, b: int, j: int|
        0 <= a < b < rows.len() && #[trigger] parent_at(ordered, parents, rows[a].index as int, j)
            && #[trigger] parent_at(ordered, parents, rows[b].index as int, j) ==> rows[a].index
            < rows[b].index
    &&& forall|a: int, s: int, j: int|
        0 <= a < rows.len() && 0 <= s < stack.len() && #[trigger] parent_at(
            ordered,
            parents,
            rows[a].index as int,
            j,
        ) && #[trigger] parent_at(ordered, parents, stack[s].0 as int, j) ==> rows[a].index
            < stack[s].0
    &&& forall|s: int, t: int, j: int|
        0 <= s < t < stack.len() && #[trigger] parent_at(ordered, parents, stack[s].0 as int, j)
            && #[trigger] parent_at(ordered, parents, stack[t].0 as int, j) ==> stack[t].0
            < stack[s].0
}

proof fn lemma_order_empty(ordered: Seq<u32>, parents: Seq<Option<u32>>)
    ensures
        order_ok(ordered, parents, Seq::empty(), Seq::empty()),
{
    reveal(order_ok);
}

/// Starting a walk at a root keeps the order.
proof fn lemma_order_start(ordered: Seq<u32>, parents: Seq<Option<u32>>, rows: Seq<TreeRow>, r: usize)
    requires
        order_ok(ordered, parents, rows, Seq::empty()),
        is_tree_root(ordered, parents, r as int),
    ensures
        order_ok(ordered, parents, rows, seq![(r, 0usize)]),
{
    reveal(order_ok);
    let st = seq![(r, 0usize)];
    assert(st[0] == (r, 0usize));
}

/// What the order says of the rows alone.
proof fn lemma_order_facts(ordered: Seq<u32>, parents: Seq<Option<u32>>, rows: Seq<TreeRow>)
    requires
        order_ok(ordered, parents, rows, Seq::empty()),
    ensures
        forall|q: int, m: int, k: int|
            #![trigger parent_at(ordered, parents, rows[k].index as int, rows[q].index as int), rows[m]]
            0 <= q < m < k < rows.len() && parent_at(ordered, parents, rows[k].index as int, rows[q].index as int)
                ==> rows[m].depth > rows[q].depth,
        forall|a: int, b: int, j: int|
            0 <= a < b < rows.len() && #[trigger] parent_at(ordered, parents, rows[a].index as int, j)
                && #[trigger] parent_at(ordered, parents, rows[b].index as int, j) ==> rows[a].index
                < rows[b].index,
{
    reveal(order_ok);
}

/// Popping the top of the stack into a new row keeps the order; the entries
/// left are no deeper than it, and none is a child of it.
#[verifier::rlimit(40)]
proof fn lemma_order_pop(
    ordered: Seq<u32>,
    parents: Seq<Option<u32>>,
    visited: Seq<bool>,
    rows: Seq<TreeRow>,
    stack: Seq<(usize, usize)>,
)
    requires
        walk_state(ordered, parents, visited, rows, stack),
        order_ok(ordered, parents, rows, stack),
        distinct_pids(ordered),
        stack.len() > 0,
    ensures
        order_ok(
            ordered,
            parents,
            rows.push(
                TreeRow {
                    index: stack.last().0,
                    pid: ordered[stack.last().0 as int],
                    depth: stack.last().1,
                },
            ),
            stack.drop_last(),
        ),
        forall|s: int| 0 <= s < stack.drop_last().len() ==> #[trigger] stack.drop_last()[s].1 <= stack.last().1,
        forall|s: int, j: int|
            0 <= s < stack.drop_last().len() && #[trigger] parent_at(
                ordered,
                parents,
                stack.drop_last()[s].0 as int,
                j,
            ) ==> j != stack.last().0,
{
    let (i, d) = stack.last();
    let row = TreeRow { index: i, pid: ordered[i as int], depth: d };
    let rows2 = rows.push(row);
    let stack2 = stack.drop_last();
    let top = stack.len() - 1;
    let kk = rows.len() as int;
    assert(stack[top] == (i, d));
    lemma_pop_into_row(ordered, parents, visited, rows, stack);
    lemma_rows_facts(ordered, parents, visited, rows2, stack2);
    assert(entry_ok(ordered, parents, visited, rows, stack[top])) by {
        reveal(stack_ok);
    }
    assert forall|s: int| 0 <= s < stack2.len() implies #[trigger] stack2[s].1 <= d by {
        reveal(order_ok);
        assert(stack2[s] == stack[s]);
        assert(stack[s].1 <= stack[top].1);
    }
    assert forall|s: int, j: int|
        0 <= s < stack2.len() && #[trigger] parent_at(ordered, parents, stack2[s].0 as int, j)
        implies j != i by {
        assert(stack2[s] == stack[s]);
        assert(entry_ok(ordered, parents, visited, rows, stack[s])) by {
            reveal(stack_ok);
        }
        if j == i as int {
            let q = choose|q: int| 0 <= q < rows.len() && rows[q].index == j && stack[s].1 == rows[q].depth + 1;
            assert(rows[q].index != stack[top].0) by {
                reveal(all_distinct);
            }
        }
    }
    reveal(order_ok);
    assert forall|q: int, m: int, k: int|
        #![trigger parent_at(ordered, parents, rows2[k].index as int, rows2[q].index as int), rows2[m]]
        0 <= q < m < k < rows2.len() && parent_at(ordered, parents, rows2[k].index as int, rows2[q].index as int)
        implies rows2[m].depth > rows2[q].depth by {
        assert(rows2[q] == rows[q]);
        assert(rows2[m] == rows[m]);
        if k < kk {
            assert(rows2[k] == rows[k]);
        } else {
            assert(rows2[k] == row);
            assert(parent_at(ordered, parents, stack[top].0 as int, rows[q].index as int));
            let q2 = choose|q2: int|
                0 <= q2 < rows.len() && rows[q2].index == rows[q].index as int && d == rows[q2].depth + 1;
            assert(q2 == q);
        }
    }
    assert forall|s: int, q: int, m: int|
        #![trigger parent_at(ordered, parents, stack2[s].0 as int, rows2[q].index as int), rows2[m]]
        0 <= s < stack2.len() && 0 <= q < m < rows2.len() && parent_at(
            ordered,
            parents,
            stack2[s].0 as int,
            rows2[q].index as int,
        ) implies rows2[m].depth >= stack2[s].1 by {
        assert(stack2[s] == stack[s]);
        assert(rows2[q] == rows[q]);
        if m < kk {
            assert(rows2[m] == rows[m]);
        } else {
            assert(stack[s].1 <= stack[top].1);
        }
    }
    assert forall|s: int, t: int| 0 <= s < t < stack2.len() implies #[trigger] stack2[s].1
        <= #[trigger] stack2[t].1 by {
        assert(stack2[s] == stack[s]);
        assert(stack2[t] == stack[t]);
    }
    assert forall|a: int, b: int, j: int|
        0 <= a < b < rows2.len() && #[trigger] parent_at(ordered, parents, rows2[a].index as int, j)
            && #[trigger] parent_at(ordered, parents, rows2[b].index as int, j) implies rows2[a].index
        < rows2[b].index by {
        assert(rows2[a] == rows[a]);
        if b < kk {
            assert(rows2[b] == rows[b]);
        } else {
            assert(rows2[b] == row);
            assert(parent_at(ordered, parents, stack[top].0 as int, j));
        }
    }
    assert forall|a: int, s: int, j: int|
        0 <= a < rows2.len() && 0 <= s < stack2.len() && #[trigger] parent_at(
            ordered,
            parents,
            rows2[a].index as int,
            j,
        ) && #[trigger] parent_at(ordered, parents, stack2[s].0 as int, j) implies rows2[a].index
        < stack2[s].0 by {
        assert(stack2[s] == stack[s]);
        if a < kk {
            assert(rows2[a] == rows[a]);
        } else {
            assert(rows2[a] == row);
            assert(parent_at(ordered, parents, stack[top].0 as int, j));
        }
    }
    assert forall|s: int, t: int, j: int|
        0 <= s < t < stack2.len() && #[trigger] parent_at(ordered, parents, stack2[s].0 as int, j)
            && #[trigger] parent_at(ordered, parents, stack2[t].0 as int, j) implies stack2[t].0
        < stack2[s].0 by {
        assert(stack2[s] == stack[s]);
        assert(stack2[t] == stack[t]);
    }
}

/// Pushing a child of the last row one level deeper keeps the order, given
/// that the entries waiting are no deeper and that the children of the last
/// row already waiting come later in the list.
#[verifier::rlimit(40)]
proof fn lemma_order_push(
    ordered: Seq<u32>,
    parents: Seq<Option<u32>>,
    visited: Seq<bool>,
    rows: Seq<TreeRow>,
    stack: Seq<(usize, usize)>,
    c: usize,
)
    requires
        walk_state(ordered, parents, visited, rows, stack),
        order_ok(ordered, parents, rows, stack),
        distinct_pids(ordered),
        rows.len() > 0,
        rows.last().depth < usize::MAX,
        c < ordered.len(),
        parent_at(ordered, parents, c as int, rows.last().index as int),
        forall|s: int| 0 <= s < stack.len() ==> #[trigger] stack[s].1 <= rows.last().depth + 1,
        forall|s: int|
            0 <= s < stack.len() && #[trigger] parent_at(
                ordered,
                parents,
                stack[s].0 as int,
                rows.last().index as int,
            ) ==> c < stack[s].0,
    ensures
        order_ok(ordered, parents, rows, stack.push((c, (rows.last().depth + 1) as usize))),
{
    let last = rows.len() - 1;
    let i = rows[last].index as int;
    let e = (rows[last].depth + 1) as usize;
    let stack2 = stack.push((c, e));
    let top = stack.len() as int;
    assert(stack2[top] == (c, e));
    lemma_rows_facts(ordered, parents, visited, rows, stack);
    assert forall|a: int, j: int|
        0 <= a < rows.len() && #[trigger] parent_at(ordered, parents, rows[a].index as int, j) implies j != i by {
        if j == i {
            assert(placed_under_parent(ordered, parents, rows, a));
            let q = choose|q: int| 0 <= q < a && rows[q].index == j && rows[a].depth == rows[q].depth + 1;
            assert(q != last);
        }
    }
    reveal(order_ok);
    assert forall|s: int, q: int, m: int|
        #![trigger parent_at(ordered, parents, stack2[s].0 as int, rows[q].index as int), rows[m]]
        0 <= s < stack2.len() && 0 <= q < m < rows.len() && parent_at(
            ordered,
            parents,
            stack2[s].0 as int,
            rows[q].index as int,
        ) implies rows[m].depth >= stack2[s].1 by {
        if s < top {
            assert(stack2[s] == stack[s]);
        } else {
            lemma_one_parent(ordered, parents, c as int, rows[q].index as int, i);
            assert(q == last);
        }
    }
    assert forall|s: int, t: int| 0 <= s < t < stack2.len() implies #[trigger] stack2[s].1
        <= #[trigger] stack2[t].1 by {
        assert(stack2[s] == stack[s]);
        if t < top {
            assert(stack2[t] == stack[t]);
        }
    }
    assert forall|a: int, s: int, j: int|
        0 <= a < rows.len() && 0 <= s < stack2.len() && #[trigger] parent_at(
            ordered,
            parents,
            rows[a].index as int,
            j,
        ) && #[trigger] parent_at(ordered, parents, stack2[s].0 as int, j) implies rows[a].index
        < stack2[s].0 by {
        if s < top {
            assert(stack2[s] == stack[s]);
        } else {
            lemma_one_parent(ordered, parents, c as int, j, i);
        }
    }
    assert forall|s: int, t: int, j: int|
        0 <= s < t < stack2.len() && #[trigger] parent_at(ordered, parents, stack2[s].0 as int, j)
            && #[trigger] parent_at(ordered, parents, stack2[t].0 as int, j) implies stack2[t].0
        < stack2[s].0 by {
        assert(stack2[s] == stack[s]);
        if t < top {
            assert(stack2[t] == stack[t]);
        } else {
            lemma_one_parent(ordered, parents, c as int, j, i);
            assert(parent_at(ordered, parents, stack[s].0 as int, i));
        }
    }
}

/// Walks the tree below the root `r`: lists it, then depth first the
/// processes below it, children in listing order, one level deeper each.
#[verifier::rlimit(60)]
fn walk_from(
    ordered: &Vec<u32>,
    parents: &Vec<Option<u32>>,
    pix: &Vec<Option<usize>>,
    visited: &mut Vec<bool>,
    rows: &mut Vec<TreeRow>,
    r: usize,
)
    requires
        distinct_pids(ordered@),
        parents@.len() == ordered@.len(),
        pix@.len() == ordered@.len(),
        forall|x: int|
            0 <= x < ordered@.len() ==> match #[trigger] pix@[x] {
                Some(j) => j < ordered@.len() && parent_at(ordered@, parents@, x, j as int),
                None => is_tree_root(ordered@, parents@, x),
            },
        forall|x: int, j: int|
            0 <= x < ordered@.len() && #[trigger] parent_at(ordered@, parents@, x, j) ==> pix@[x]
                == Some(j as usize),
        r < ordered@.len(),
        is_tree_root(ordered@, parents@, r as int),
        !old(visited)@[r as int],
        walk_state(ordered@, parents@, old(visited)@, old(rows)@, Seq::empty()),
        order_ok(ordered@, parents@, old(rows)@, Seq::empty()),
        forall|k: int, c: int|
            0 <= k < old(rows)@.len() && 0 <= c < ordered@.len() && #[trigger] parent_at(
                ordered@,
                parents@,
                c,
                old(rows)@[k].index as int,
            ) ==> old(visited)@[c],
        forall|k: int|
            0 <= k < old(rows)@.len() && #[trigger] is_tree_root(
                ordered@,
                parents@,
                old(rows)@[k].index as int,
            ) ==> old(rows)@[k].index < r,
        forall|a: int, b: int|
            0 <= a < b < old(rows)@.len() && #[trigger] is_tree_root(
                ordered@,
                parents@,
                old(rows)@[a].index as int,
            ) && #[trigger] is_tree_root(ordered@, parents@, old(rows)@[b].index as int)
                ==> old(rows)@[a].index < old(rows)@[b].index,
    ensures
        walk_state(ordered@, parents@, final(visited)@, final(rows)@, Seq::empty()),
        order_ok(ordered@, parents@, final(rows)@, Seq::empty()),
        final(visited)@[r as int],
        forall|x: int|
            0 <= x < ordered@.len() && x != r && #[trigger] is_tree_root(ordered@, parents@, x)
                ==> final(visited)@[x] == old(visited)@[x],
        forall|k: int, c: int|
            0 <= k < final(rows)@.len() && 0 <= c < ordered@.len() && #[trigger] parent_at(
                ordered@,
                parents@,
                c,
                final(rows)@[k].index as int,
            ) ==> final(visited)@[c],
        forall|k: int|
            0 <= k < final(rows)@.len() && #[trigger] is_tree_root(
                ordered@,
                parents@,
                final(rows)@[k].index as int,
            ) ==> final(rows)@[k].index <= r,
        forall|a: int, b: int|
            0 <= a < b < final(rows)@.len() && #[trigger] is_tree_root(
                ordered@,
                parents@,
                final(rows)@[a].index as int,
            ) && #[trigger] is_tree_root(ordered@, parents@, final(rows)@[b].index as int)
                ==> final(rows)@[a].index < final(rows)@[b].index,
{
    let ghost o = ordered@;
    let ghost p = parents@;
    let ghost start = visited@;
    let n = ordered.len();
    proof {
        lemma_rows_facts(o, p, visited@, rows@, Seq::empty());
        lemma_rows_bounded(rows@, n as int);
        lemma_start_walk(o, p, visited@, rows@, r);
        lemma_order_start(o, p, rows@, r);
    }
    visited.set(r, true);
    let mut stack: Vec<(usize, usize)> = Vec::new();
    stack.push((r, 0));
    assert(stack@ == seq![(r, 0usize)]);
    while stack.len() > 0
        invariant
            n == o.len(),
            o == ordered@,
            p == parents@,
            distinct_pids(o),
            p.len() == n,
            pix@.len() == n,
            forall|x: int|
                0 <= x < n ==> match #[trigger] pix@[x] {
                    Some(j) => j < n && parent_at(o, p, x, j as int),
                    None => is_tree_root(o, p, x),
                },
            forall|x: int, j: int|
                0 <= x < n && #[trigger] parent_at(o, p, x, j) ==> pix@[x] == Some(j as usize),
            r < n,
            walk_state(o, p, visited@, rows@, stack@),
            order_ok(o, p, rows@, stack@),
            visited@[r as int],
            forall|x: int|
                0 <= x < n && x != r && #[trigger] is_tree_root(o, p, x) ==> visited@[x]
                    == start[x],
            forall|s: int|
                0 <= s < stack@.len() && #[trigger] is_tree_root(o, p, stack@[s].0 as int)
                    ==> stack@[s].0 == r,
            forall|k: int, c: int|
                0 <= k < rows@.len() && 0 <= c < n && #[trigger] parent_at(
                    o,
                    p,
                    c,
                    rows@[k].index as int,
                ) ==> visited@[c],
            forall|k: int|
                0 <= k < rows@.len() && #[trigger] is_tree_root(o, p, rows@[k].index as int)
                    ==> rows@[k].index <= r,
            forall|a: int, b: int|
                0 <= a < b < rows@.len() && #[trigger] is_tree_root(o, p, rows@[a].index as int)
                    && #[trigger] is_tree_root(o, p, rows@[b].index as int) ==> rows@[a].index
                    < rows@[b].index,
            rows@.len() <= n,
        decreases n - rows@.len(),
    {
        let ghost before_rows = rows@;
        let ghost before_stack = stack@;
        proof {
            lemma_pop_into_row(o, p, visited@, rows@, stack@);
            lemma_order_pop(o, p, visited@, rows@, stack@);
        }
        let top = stack.pop();
        let (i, d) = match top {
            Some(entry) => entry,
            None => (r, 0),
        };
        assert((i, d) == before_stack.last());
        let row = TreeRow { index: i, pid: ordered[i], depth: d };
        rows.push(row);
        proof {
            lemma_rows_facts(o, p, visited@, rows@, stack@);
            lemma_rows_bounded(rows@, n as int);
            assert forall|k: int| 0 <= k < before_rows.len() implies rows@[k] == before_rows[k] by {}
        }
        let ghost scan_start = visited@;
        let mut c: usize = n;
        while c > 0
            invariant
                n == o.len(),
                o == ordered@,
                p == parents@,
                distinct_pids(o),
                p.len() == n,
                pix@.len() == n,
                forall|x: int|
                    0 <= x < n ==> match #[trigger] pix@[x] {
                        Some(j) => j < n && parent_at(o, p, x, j as int),
                        None => is_tree_root(o, p, x),
                    },
                forall|x: int, j: int|
                    0 <= x < n && #[trigger] parent_at(o, p, x, j) ==> pix@[x] == Some(
                        j as usize,
                    ),
                r < n,
                c <= n,
                i < n,
                rows@.len() > 0,
                rows@.last() == row,
                row.index == i,
                row.depth == d,
                walk_state(o, p, visited@, rows@, stack@),
                order_ok(o, p, rows@, stack@),
                forall|s: int| 0 <= s < stack@.len() ==> #[trigger] stack@[s].1 <= d + 1,
                forall|s: int|
                    0 <= s < stack@.len() && #[trigger] parent_at(o, p, stack@[s].0 as int, i as int)
                        ==> c <= stack@[s].0,
                visited@[r as int],
                forall|x: int|
                    0 <= x < n && x != r && #[trigger] is_tree_root(o, p, x) ==> visited@[x]
                        == start[x],
                forall|s: int|
                    0 <= s < stack@.len() && #[trigger] is_tree_root(o, p, stack@[s].0 as int)
                        ==> stack@[s].0 == r,
                forall|x: int| 0 <= x < n && scan_start[x] ==> #[trigger] visited@[x],
                forall|k: int, x: int|
                    0 <= k < rows@.len() - 1 && 0 <= x < n && #[trigger] parent_at(
                        o,
                        p,
                        x,
                        rows@[k].index as int,
                    ) ==> scan_start[x],
                forall|x: int|
                    c <= x < n && #[trigger] parent_at(o, p, x, i as int) ==> visited@[x],
                forall|k: int|
                    0 <= k < rows@.len() && #[trigger] is_tree_root(o, p, rows@[k].index as int)
                        ==> rows@[k].index <= r,
                forall|a: int, b: int|
                    0 <= a < b < rows@.len() && #[trigger] is_tree_root(
                        o,
                        p,
                        rows@[a].index as int,
                    ) && #[trigger] is_tree_root(o, p, rows@[b].index as int) ==> rows@[a].index
                        < rows@[b].index,
                rows@.len() <= n,
            decreases c,
        {
            c = c - 1;
            let is_child = match pix[c] {
                Some(j) => j == i,
                None => false,
            };
            if is_child && !visited[c] {
                proof {
                    assert(parent_at(o, p, c as int, i as int));
                    lemma_push_child(o, p, visited@, rows@, stack@, c);
                    lemma_order_push(o, p, visited@, rows@, stack@, c);
                }
                visited.set(c, true);
                stack.push((c, d + 1));
            }
        }
    }
    assert(stack@ =~= Seq::<(usize, usize)>::empty());
}

/// Appends, in listing order and at depth zero, a row for every process
/// that the walk did not reach.
fn append_unreached(ordered: &Vec<u32>, visited: &Vec<bool>, rows: &mut Vec<TreeRow>)
    requires
        visited@.len() == ordered@.len(),
    ensures
        old(rows)@.len() <= final(rows)@.len(),
        forall|q: int| 0 <= q < old(rows)@.len() ==> #[trigger] final(rows)@[q] == old(rows)@[q],
        forall|k: int|
            old(rows)@.len() <= k < final(rows)@.len() ==> {
                &&& #[trigger] final(rows)@[k].index < ordered@.len()
                &&& final(rows)@[k].pid == ordered@[final(rows)@[k].index as int]
                &&& !visited@[final(rows)@[k].index as int]
                &&& final(rows)@[k].depth == 0
            },
        forall|a: int, b: int|
            old(rows)@.len() <= a < b < final(rows)@.len() ==> #[trigger] final(rows)@[a].index
                < #[trigger] final(rows)@[b].index,
        forall|y: int|
            0 <= y < ordered@.len() && !#[trigger] visited@[y] ==> exists|k: int|
                old(rows)@.len() <= k < final(rows)@.len() && final(rows)@[k].index == y,
{
    let ghost start = rows@;
    let n = ordered.len();
    let mut x: usize = 0;
    while x < n
        invariant
            n == ordered@.len(),
            visited@.len() == n,
            x <= n,
            start.len() <= rows@.len(),
            forall|q: int| 0 <= q < start.len() ==> #[trigger] rows@[q] == start[q],
            forall|k: int|
                start.len() <= k < rows@.len() ==> {
                    &&& #[trigger] rows@[k].index < x
                    &&& rows@[k].pid == ordered@[rows@[k].index as int]
                    &&& !visited@[rows@[k].index as int]
                    &&& rows@[k].depth == 0
                },
            forall|a: int, b: int|
                start.len() <= a < b < rows@.len() ==> #[trigger] rows@[a].index
                    < #[trigger] rows@[b].index,
            forall|y: int|
                0 <= y < x && !#[trigger] visited@[y] ==> exists|k: int|
                    start.len() <= k < rows@.len() && rows@[k].index == y,
        decreases n - x,
    {
        if !visited[x] {
            let ghost before = rows@;
            rows.push(TreeRow { index: x, pid: ordered[x], depth: 0 });
            proof {
                assert forall|y: int| 0 <= y <= x && !#[trigger] visited@[y] implies exists|k: int|
                    start.len() <= k < rows@.len() && rows@[k].index == y by {
                    if y < x {
                        let k = choose|k: int|
                            start.len() <= k < before.len() && before[k].index == y;
                        assert(rows@[k] == before[k]);
                    } else {
                        assert(rows@[before.len() as int].index == y);
                    }
                }
            }
        }
        x = x + 1;
    }
}

/// Rows that show every process of the list, each once, are as many as the
/// processes.
proof fn lemma_rows_exact(rows: Seq<TreeRow>, n: int)
    requires
        0 <= n,
        forall|k: int| 0 <= k < rows.len() ==> #[trigger] rows[k].index < n,
        forall|a: int, b: int|
            0 <= a < rows.len() && 0 <= b < rows.len() && a != b ==> #[trigger] rows[a].index
                != #[trigger] rows[b].index,
        forall|i: int| 0 <= i < n ==> #[trigger] shows(rows, i),
    ensures
        rows.len() == n,
{
    lemma_rows_bounded(rows, n);
    let ix = Seq::new(rows.len(), |k: int| rows[k].index as int);
    assert(ix.no_duplicates());
    ix.unique_seq_to_set();
    vstd::set_lib::lemma_int_range(0, n);
    assert forall|x: int| vstd::set_lib::set_int_range(0, n).contains(x) implies ix.to_set().contains(
        x,
    ) by {
        assert(shows(rows, x));
        let k = choose|k: int| 0 <= k < rows.len() && rows[k].index == x;
        assert(ix[k] == x);
    }
    ix.lemma_cardinality_of_set();
    vstd::set_lib::lemma_len_subset(vstd::set_lib::set_int_range(0, n), ix.to_set());
}

/// How the tree view lays out the rows for the listing `ordered` with parents
/// `parents`: every process shows once; a process whose parent chain
/// reaches a root sits at depth zero if it is a root and otherwise one level
/// below its parent's earlier row, and every row between the two is deeper
/// than the parent and shows a process below it; those rows come first,
/// roots in listing order; processes with the same parent keep their listing
/// order; processes caught in a parent cycle follow at depth zero in listing
/// order. This is the depth-first layout: each process is followed directly
/// by the processes below it.
pub open spec fn tree_layout(ordered: Seq<u32>, parents: Seq<Option<u32>>, rows: Seq<TreeRow>) -> bool {
    &&& rows.len() == ordered.len()
    &&& forall|k: int|
        0 <= k < rows.len() ==> #[trigger] rows[k].index < ordered.len() && rows[k].pid
            == ordered[rows[k].index as int]
    &&& forall|a: int, b: int|
        0 <= a < rows.len() && 0 <= b < rows.len() && a != b ==> #[trigger] rows[a].index
            != #[trigger] rows[b].index
    &&& forall|i: int| 0 <= i < ordered.len() ==> #[trigger] shows(rows, i)
    &&& forall|k: int|
        0 <= k < rows.len() && #[trigger] rooted(ordered, parents, rows[k].index as int)
            ==> placed_under_parent(ordered, parents, rows, k)
    &&& forall|k: int|
        0 <= k < rows.len() && !#[trigger] rooted(ordered, parents, rows[k].index as int)
            ==> rows[k].depth == 0
    &&& forall|a: int, b: int|
        0 <= a < b < rows.len() && #[trigger] rooted(ordered, parents, rows[b].index as int)
            ==> #[trigger] rooted(ordered, parents, rows[a].index as int)
    &&& forall|a: int, b: int|
        0 <= a < b < rows.len() && !#[trigger] rooted(ordered, parents, rows[a].index as int)
            && !#[trigger] rooted(ordered, parents, rows[b].index as int) ==> rows[a].index
            < rows[b].index
    &&& forall|a: int, b: int|
        0 <= a < b < rows.len() && #[trigger] is_tree_root(
            ordered,
            parents,
            rows[a].index as int,
        ) && #[trigger] is_tree_root(ordered, parents, rows[b].index as int)
            ==> rows[a].index < rows[b].index
    &&& forall|q: int, m: int, k: int|
        #![trigger parent_at(ordered, parents, rows[k].index as int, rows[q].index as int), rows[m]]
        0 <= q < m < k < rows.len() && rooted(ordered, parents, rows[k].index as int) && parent_at(
            ordered,
            parents,
            rows[k].index as int,
            rows[q].index as int,
        ) ==> rows[m].depth > rows[q].depth && descends(
            ordered,
            parents,
            rows[m].index as int,
            rows[q].index as int,
        )
    &&& forall|a: int, b: int|
        #![trigger rows[a], rows[b]]
        0 <= a < b < rows.len() && parents[rows[a].index as int] == parents[rows[b].index as int]
            ==> rows[a].index < rows[b].index
}

/// Between a row and a later row that is deeper than it all the way, and
/// whose process reaches a root, the later row shows a process below the
/// earlier one's.
proof fn lemma_between_descends(
    ordered: Seq<u32>,
    parents: Seq<Option<u32>>,
    rows: Seq<TreeRow>,
    q: int,
    m: int,
)
    requires
        0 <= q < m < rows.len(),
        rooted(ordered, parents, rows[m].index as int),
        forall|x: int| q < x <= m ==> #[trigger] rows[x].depth > rows[q].depth,
        forall|k: int|
            0 <= k < rows.len() && #[trigger] rooted(ordered, parents, rows[k].index as int)
                ==> placed_under_parent(ordered, parents, rows, k),
        forall|a: int, b: int|
            0 <= a < b < rows.len() && #[trigger] rooted(ordered, parents, rows[b].index as int)
                ==> #[trigger] rooted(ordered, parents, rows[a].index as int),
        forall|q2: int, m2: int, k2: int|
            #![trigger parent_at(ordered, parents, rows[k2].index as int, rows[q2].index as int), rows[m2]]
            0 <= q2 < m2 < k2 < rows.len() && rooted(ordered, parents, rows[k2].index as int)
                && parent_at(ordered, parents, rows[k2].index as int, rows[q2].index as int)
                ==> rows[m2].depth > rows[q2].depth,
    ensures
        descends(ordered, parents, rows[m].index as int, rows[q].index as int),
    decreases m,
{
    let im = rows[m].index as int;
    let iq = rows[q].index as int;
    assert(placed_under_parent(ordered, parents, rows, m));
    assert(rows[m].depth > rows[q].depth);
    if is_tree_root(ordered, parents, im) {
        assert(rows[m].depth == 0);
    } else {
        let j = choose|j: int| #[trigger] parent_at(ordered, parents, im, j);
        let qm = choose|qm: int|
            0 <= qm < m && rows[qm].index == j && rows[m].depth == rows[qm].depth + 1;
        if qm == q {
            assert(descends_within(ordered, parents, im, iq, 1));
        } else if qm > q {
            assert(rooted(ordered, parents, rows[qm].index as int));
            lemma_between_descends(ordered, parents, rows, q, qm);
            let f = choose|f: nat| #[trigger] descends_within(ordered, parents, j, iq, f);
            assert(descends_within(ordered, parents, im, iq, f + 1));
        } else {
            assert(parent_at(ordered, parents, im, rows[qm].index as int));
            assert(rows[q].depth > rows[qm].depth);
        }
    }
}

/// Nests the listed processes under their parents, as the tree view shows
/// them. `ordered` is the listing order (identifiers without repeats) and
/// `parents[i]` the parent of `ordered[i]`. Starting from each root (a
/// process whose parent is not listed) in listing order, the walk lists a
/// process and then, depth first, its children in listing order, each one
/// level deeper. Processes whose parent chain runs into a cycle follow at
/// depth zero, in listing order.
pub fn tree_order(ordered: &Vec<u32>, parents: &Vec<Option<u32>>) -> (rows: Vec<TreeRow>)
    requires
        distinct_pids(ordered@),
        parents@.len() == ordered@.len(),
    ensures
        tree_layout(ordered@, parents@, rows@),
{
    let ghost o = ordered@;
    let ghost p = parents@;
    let n = ordered.len();
    let mut pix: Vec<Option<usize>> = Vec::new();
    let mut i: usize = 0;
    while i < n
        invariant
            i <= n,
            n == o.len(),
            o == ordered@,
            p == parents@,
            p.len() == n,
            distinct_pids(o),
            pix@.len() == i,
            forall|x: int|
                0 <= x < i ==> match #[trigger] pix@[x] {
                    Some(j) => j < n && parent_at(o, p, x, j as int),
                    None => is_tree_root(o, p, x),
                },
        decreases n - i,
    {
        let pos = position_of(ordered, parents[i]);
        pix.push(pos);
        i = i + 1;
    }
    assert forall|x: int, j: int| 0 <= x < n && #[trigger] parent_at(o, p, x, j) implies pix@[x]
        == Some(j as usize) by {
        match pix@[x] {
            Some(q) => {
                assert(o[q as int] == o[j]);
            },
            None => {},
        }
    }
    let mut visited: Vec<bool> = Vec::new();
    let mut v: usize = 0;
    while v < n
        invariant
            v <= n,
            visited@.len() == v,
            forall|x: int| 0 <= x < v ==> !#[trigger] visited@[x],
        decreases n - v,
    {
        visited.push(false);
        v = v + 1;
    }
    let mut rows: Vec<TreeRow> = Vec::new();
    proof {
        lemma_empty_walk(o, p, visited@);
        lemma_order_empty(o, p);
    }
    let mut r: usize = 0;
    while r < n
        invariant
            r <= n,
            n == o.len(),
            o == ordered@,
            p == parents@,
            p.len() == n,
            distinct_pids(o),
            pix@.len() == n,
            forall|x: int|
                0 <= x < n ==> match #[trigger] pix@[x] {
                    Some(j) => j < n && parent_at(o, p, x, j as int),
                    None => is_tree_root(o, p, x),
                },
            forall|x: int, j: int|
                0 <= x < n && #[trigger] parent_at(o, p, x, j) ==> pix@[x] == Some(j as usize),
            walk_state(o, p, visited@, rows@, Seq::empty()),
            order_ok(o, p, rows@, Seq::empty()),
            forall|x: int| 0 <= x < r && #[trigger] is_tree_root(o, p, x) ==> visited@[x],
            forall|x: int| r <= x < n && #[trigger] is_tree_root(o, p, x) ==> !visited@[x],
            forall|k: int, c: int|
                0 <= k < rows@.len() && 0 <= c < n && #[trigger] parent_at(
                    o,
                    p,
                    c,
                    rows@[k].index as int,
                ) ==> visited@[c],
            forall|k: int|
                0 <= k < rows@.len() && #[trigger] is_tree_root(o, p, rows@[k].index as int)
                    ==> rows@[k].index < r,
            forall|a: int, b: int|
                0 <= a < b < rows@.len() && #[trigger] is_tree_root(o, p, rows@[a].index as int)
                    && #[trigger] is_tree_root(o, p, rows@[b].index as int) ==> rows@[a].index
                    < rows@[b].index,
        decreases n - r,
    {
        if pix[r].is_none() {
            walk_from(ordered, parents, &pix, &mut visited, &mut rows, r);
        }
        r = r + 1;
    }
    let ghost walked = rows@;
    let ghost seen = visited@;
    proof {
        lemma_rows_facts(o, p, visited@, rows@, Seq::empty());
        assert forall|x: int| 0 <= x < n && #[trigger] rooted(o, p, x) implies seen[x] by {
            let f = choose|f: nat| #[trigger] rooted_within(o, p, x, f);
            lemma_rooted_visited(o, p, seen, walked, x, f);
        }
    }
    append_unreached(ordered, &visited, &mut rows);
    proof {
        let all = rows@;
        assert forall|k: int| 0 <= k < all.len() implies #[trigger] all[k].index < o.len()
            && all[k].pid == o[all[k].index as int] by {
            if k < walked.len() {
                assert(all[k] == walked[k]);
            }
        }
        assert forall|a: int, b: int|
            0 <= a < all.len() && 0 <= b < all.len() && a != b implies #[trigger] all[a].index
            != #[trigger] all[b].index by {
            if a < walked.len() && b < walked.len() {
                assert(all[a] == walked[a]);
                assert(all[b] == walked[b]);
            } else if a < walked.len() {
                assert(all[a] == walked[a]);
            } else if b < walked.len() {
                assert(all[b] == walked[b]);
            } else if a < b {
                assert(all[a].index < all[b].index);
            } else {
                assert(all[b].index < all[a].index);
            }
        }
        assert forall|y: int| 0 <= y < o.len() implies #[trigger] shows(all, y) by {
            if seen[y] {
                assert(shows(walked, y));
                let k = choose|k: int| 0 <= k < walked.len() && walked[k].index == y;
                assert(all[k] == walked[k]);
            } else {
                let k = choose|k: int| walked.len() <= k < all.len() && all[k].index == y;
                assert(0 <= k < all.len() && all[k].index == y);
            }
        }
        assert forall|k: int|
            0 <= k < all.len() && #[trigger] rooted(o, p, all[k].index as int) implies placed_under_parent(
            o,
            p,
            all,
            k,
        ) by {
            if k < walked.len() {
                assert(all[k] == walked[k]);
                lemma_placed_prefix(o, p, walked, all, k);
            } else {
                assert(!seen[all[k].index as int]);
            }
        }
        assert forall|k: int| 0 <= k < all.len() && !#[trigger] rooted(o, p, all[k].index as int) implies all[k].depth
            == 0 by {
            if k < walked.len() {
                assert(all[k] == walked[k]);
            }
        }
        assert forall|a: int, b: int|
            0 <= a < b < all.len() && #[trigger] rooted(o, p, all[b].index as int) implies #[trigger] rooted(
            o,
            p,
            all[a].index as int,
        ) by {
            if b < walked.len() {
                assert(all[a] == walked[a]);
            } else {
                assert(!seen[all[b].index as int]);
            }
        }
        assert forall|a: int, b: int|
            0 <= a < b < all.len() && !#[trigger] rooted(o, p, all[a].index as int) && !#[trigger] rooted(
                o,
                p,
                all[b].index as int,
            ) implies all[a].index < all[b].index by {
            if a < walked.len() {
                assert(all[a] == walked[a]);
            } else if b < walked.len() {
                assert(all[b] == walked[b]);
            }
        }
        assert forall|a: int, b: int|
            0 <= a < b < all.len() && #[trigger] is_tree_root(o, p, all[a].index as int)
                && #[trigger] is_tree_root(o, p, all[b].index as int) implies all[a].index
            < all[b].index by {
            lemma_root_rooted(o, p, all[a].index as int);
            lemma_root_rooted(o, p, all[b].index as int);
            if a >= walked.len() {
                assert(!seen[all[a].index as int]);
            } else if b >= walked.len() {
                assert(!seen[all[b].index as int]);
            } else {
                assert(all[a] == walked[a]);
                assert(all[b] == walked[b]);
            }
        }
        lemma_order_facts(o, p, walked);
        assert forall|q: int, m: int, k: int|
            #![trigger parent_at(o, p, all[k].index as int, all[q].index as int), all[m]]
            0 <= q < m < k < all.len() && rooted(o, p, all[k].index as int) && parent_at(
                o,
                p,
                all[k].index as int,
                all[q].index as int,
            ) implies all[m].depth > all[q].depth by {
            if k >= walked.len() {
                assert(!seen[all[k].index as int]);
            }
            assert(all[k] == walked[k]);
            assert(all[q] == walked[q]);
            assert(all[m] == walked[m]);
        }
        assert forall|q: int, m: int, k: int|
            #![trigger parent_at(o, p, all[k].index as int, all[q].index as int), all[m]]
            0 <= q < m < k < all.len() && rooted(o, p, all[k].index as int) && parent_at(
                o,
                p,
                all[k].index as int,
                all[q].index as int,
            ) implies descends(o, p, all[m].index as int, all[q].index as int) by {
            assert forall|x: int| q < x <= m implies #[trigger] all[x].depth > all[q].depth by {
                assert(parent_at(o, p, all[k].index as int, all[q].index as int));
            }
            assert(rooted(o, p, all[m].index as int));
            lemma_between_descends(o, p, all, q, m);
        }
        assert forall|a: int, b: int|
            #![trigger all[a], all[b]]
            0 <= a < b < all.len() && p[all[a].index as int] == p[all[b].index as int] implies all[a].index
            < all[b].index by {
            let ia = all[a].index as int;
            let ib = all[b].index as int;
            if is_tree_root(o, p, ia) {
                assert forall|j: int| !#[trigger] parent_at(o, p, ib, j) by {
                    assert(!parent_at(o, p, ia, j));
                }
                assert(is_tree_root(o, p, ib));
            } else {
                let j = choose|j: int| #[trigger] parent_at(o, p, ia, j);
                assert(parent_at(o, p, ib, j));
                if b < walked.len() {
                    assert(all[a] == walked[a]);
                    assert(all[b] == walked[b]);
                } else if a < walked.len() {
                    assert(all[a] == walked[a]);
                    assert(rooted(o, p, ia));
                    lemma_parent_rooted(o, p, ia, j);
                    lemma_child_rooted(o, p, ib, j);
                    assert(!seen[ib]);
                }
            }
        }
        lemma_rows_exact(all, o.len() as int);
    }
    rows
}

} // verus!
