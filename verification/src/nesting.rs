//! Where each task of a grown forest hangs: one level below the nearest
//! earlier task that is less deep, and at the top where there is none.

use crate::hierarchy::{lemma_listing_add, 
    deeper_run, forest_of, listing, listing_tree, tasks_of, trees_of,
    with_subtasks, Entry,
};
use crate::task_model::TaskView;
use vstd::prelude::*;

verus! {

/// The depths of a list of entries.
pub open spec fn levels_of(entries: Seq<Entry>) -> Seq<nat> {
    entries.map_values(|e: Entry| e.1)
}

/// The nearest position at or before `j` whose level is below that of
/// position `k`; -1 where there is none.
pub open spec fn shallower_before(levels: Seq<nat>, k: int, j: int) -> int
    decreases j + 1,
{
    if j < 0 {
        -1
    } else if levels[j] < levels[k] {
        j
    } else {
        shallower_before(levels, k, j - 1)
    }
}

/// The line under which line `k` hangs: the nearest earlier line that is
/// less deep; -1 where there is none.
pub open spec fn parent_line(levels: Seq<nat>, k: int) -> int {
    shallower_before(levels, k, k - 1)
}

/// How deep line `k` hangs: one level below its parent line, and at level 0
/// where it has none.
pub open spec fn nesting(levels: Seq<nat>, k: int) -> nat
    decreases k,
{
    if 0 <= k < levels.len() {
        let p = parent_line(levels, k);
        if 0 <= p < k {
            nesting(levels, p) + 1
        } else {
            0
        }
    } else {
        0
    }
}

/// How many levels at the start of `levels` are above `level`.
pub open spec fn run_above(levels: Seq<nat>, level: nat) -> nat
    decreases levels.len(),
{
    if levels.len() > 0 && levels[0] > level {
        1 + run_above(levels.drop_first(), level)
    } else {
        0
    }
}

/// Each of `depths` raised by one.
pub open spec fn raised(depths: Seq<nat>) -> Seq<nat> {
    depths.map_values(|d: nat| d + 1)
}

/// How deep each line hangs, worked out from the last line back: the first
/// line hangs at the top, and the lines that directly follow it and are
/// deeper than it hang one level lower than they would without it.
pub open spec fn hanging(levels: Seq<nat>) -> Seq<nat>
    decreases levels.len(),
{
    if levels.len() == 0 {
        Seq::empty()
    } else {
        let rest = hanging(levels.drop_first());
        let m = run_above(levels.drop_first(), levels[0]) as int;
        seq![0nat] + raised(rest.take(m)) + rest.skip(m)
    }
}

/// The run of higher levels is a prefix of higher levels, and stops at a level
/// that is not higher.
proof fn lemma_run_above(levels: Seq<nat>, level: nat)
    ensures
        run_above(levels, level) <= levels.len(),
        forall|j: int| 0 <= j < run_above(levels, level) ==> #[trigger] levels[j] > level,
        run_above(levels, level) < levels.len() ==> levels[run_above(levels, level) as int]
            <= level,
    decreases levels.len(),
{
    if levels.len() > 0 && levels[0] > level {
        let rest = levels.drop_first();
        lemma_run_above(rest, level);
        assert forall|j: int| 0 <= j < run_above(levels, level) implies #[trigger] levels[j]
            > level by {
            if j > 0 {
                assert(levels[j] == rest[j - 1]);
            }
        }
    }
}

/// Every line hangs somewhere.
proof fn lemma_hanging_len(levels: Seq<nat>)
    ensures
        hanging(levels).len() == levels.len(),
    decreases levels.len(),
{
    if levels.len() > 0 {
        lemma_hanging_len(levels.drop_first());
        lemma_run_above(levels.drop_first(), levels[0]);
    }
}

/// What the search for a shallower line finds: a line that is less deep, with
/// no such line between it and the line searched for.
proof fn lemma_shallower_before(levels: Seq<nat>, k: int, j: int)
    requires
        0 <= k < levels.len(),
        -1 <= j < k,
    ensures
        ({
            let p = shallower_before(levels, k, j);
            &&& -1 <= p <= j
            &&& p >= 0 ==> levels[p] < levels[k]
            &&& forall|i: int| p < i <= j ==> #[trigger] levels[i] >= levels[k]
        }),
    decreases j + 1,
{
    if j >= 0 && levels[j] >= levels[k] {
        lemma_shallower_before(levels, k, j - 1);
    }
}

/// With one more line in front, the search finds the same line, or the new
/// first line where it found none and that line is less deep.
proof fn lemma_shallower_shift(levels: Seq<nat>, i: int, j: int)
    requires
        levels.len() > 0,
        0 <= i < levels.len() - 1,
        -1 <= j < i,
    ensures
        ({
            let rest = levels.drop_first();
            let found = shallower_before(rest, i, j);
            shallower_before(levels, i + 1, j + 1) == if found >= 0 {
                found + 1
            } else if levels[0] < levels[i + 1] {
                0
            } else {
                -1
            }
        }),
    decreases j + 1,
{
    reveal_with_fuel(shallower_before, 2);
    if j >= 0 && levels[j + 1] >= levels[i + 1] {
        lemma_shallower_shift(levels, i, j - 1);
    }
}

/// With one more line in front, a line hangs one level lower if it and all
/// lines before it are deeper than the new first line, and as before if
/// not.
proof fn lemma_nesting_shift(levels: Seq<nat>, i: int)
    requires
        levels.len() > 0,
        0 <= i < levels.len() - 1,
    ensures
        nesting(levels, i + 1) == nesting(levels.drop_first(), i) + if i < run_above(
            levels.drop_first(),
            levels[0],
        ) {
            1nat
        } else {
            0nat
        },
    decreases i,
{
    let rest = levels.drop_first();
    let p = parent_line(rest, i);
    lemma_run_above(rest, levels[0]);
    lemma_shallower_before(rest, i, i - 1);
    lemma_shallower_shift(levels, i, i - 1);
    if p >= 0 {
        lemma_nesting_shift(levels, p);
    } else if levels[0] < rest[i] {
        assert(nesting(levels, 0) == 0);
    }
}

/// Worked out from the last line back or by the nearest shallower line, each
/// line hangs at the same depth.
pub proof fn lemma_hanging_is_nesting(levels: Seq<nat>, k: int)
    requires
        0 <= k < levels.len(),
    ensures
        hanging(levels).len() == levels.len(),
        hanging(levels)[k] == nesting(levels, k),
    decreases levels.len(),
{
    let rest = levels.drop_first();
    lemma_hanging_len(rest);
    lemma_run_above(rest, levels[0]);
    if k > 0 {
        lemma_hanging_is_nesting(rest, k - 1);
        lemma_nesting_shift(levels, k - 1);
    }
}

/// One level deeper, a forest lists the same lines, each one level deeper.
proof fn lemma_listing_deeper(forest: Seq<TaskView>, depth: nat)
    ensures
        levels_of(listing(forest, depth + 1)) == raised(levels_of(listing(forest, depth))),
    decreases forest, 0nat,
{
    if forest.len() > 0 {
        lemma_listing_tree_deeper(forest[0], depth);
        lemma_listing_deeper(forest.drop_first(), depth);
        let a0 = listing_tree(forest[0], depth);
        let b0 = listing(forest.drop_first(), depth);
        assert(levels_of(a0 + b0) =~= levels_of(a0) + levels_of(b0));
        assert(raised(levels_of(a0) + levels_of(b0)) =~= raised(levels_of(a0)) + raised(
            levels_of(b0),
        ));
    }
}

/// One level deeper, a tree lists the same lines, each one level deeper.
proof fn lemma_listing_tree_deeper(t: TaskView, depth: nat)
    ensures
        levels_of(listing_tree(t, depth + 1)) == raised(levels_of(listing_tree(t, depth))),
    decreases t, 1nat,
{
    let head1 = seq![(t, (depth + 1) as nat)];
    let head0 = seq![(t, depth)];
    match t.subtasks {
        Some(kids) => {
            lemma_listing_deeper(kids, depth + 1);
            let k0 = listing(kids, depth + 1);
            assert(levels_of(head0 + k0) =~= levels_of(head0) + levels_of(k0));
            assert(raised(levels_of(head0) + levels_of(k0)) =~= raised(levels_of(head0)) + raised(
                levels_of(k0),
            ));
        },
        None => {
            assert(levels_of(head1 + Seq::<Entry>::empty()) =~= raised(
                levels_of(head0 + Seq::<Entry>::empty()),
            ));
        },
    }
}

/// The number of lines in which the trees `trees` are listed.
pub open spec fn lines_of(trees: Seq<Entry>) -> nat {
    listing(tasks_of(trees), 0).len()
}

/// Trees set one after the other are written in the lines of both.
proof fn lemma_lines_of_add(a: Seq<Entry>, b: Seq<Entry>)
    ensures
        lines_of(a + b) == lines_of(a) + lines_of(b),
{
    assert(tasks_of(a + b) =~= tasks_of(a) + tasks_of(b));
    lemma_listing_add(tasks_of(a), tasks_of(b), 0);
}

/// The deeper run for a lower level goes on where the run for a higher level
/// stops.
proof fn lemma_deeper_run_split(trees: Seq<Entry>, high: nat, low: nat)
    requires
        low <= high,
    ensures
        deeper_run(trees, high) <= trees.len(),
        deeper_run(trees, low) == deeper_run(trees, high) + deeper_run(
            trees.skip(deeper_run(trees, high) as int),
            low,
        ),
    decreases trees.len(),
{
    if trees.len() > 0 && trees[0].1 > high {
        let rest = trees.drop_first();
        lemma_deeper_run_split(rest, high, low);
        assert(trees.skip(deeper_run(trees, high) as int) =~= rest.skip(
            deeper_run(rest, high) as int,
        ));
    } else {
        assert(trees.skip(0) == trees);
    }
}

/// The lines of one tree: its root, and the lines of what hangs under it.
proof fn lemma_lines_of_node(t: TaskView, level: nat, kids: Seq<Entry>)
    ensures
        lines_of(seq![(with_subtasks(t, tasks_of(kids)), level)]) == 1 + lines_of(kids),
{
    reveal_with_fuel(listing, 3);
    lemma_listing_deeper(tasks_of(kids), 0);
    assert(levels_of(listing(tasks_of(kids), 1)).len() == listing(tasks_of(kids), 1).len());
}

/// The trees at the start that are deeper than a level are written in as
/// many lines as there are lines at the start that are deeper than it.
proof fn lemma_deeper_lines(entries: Seq<Entry>, level: nat)
    ensures
        deeper_run(trees_of(entries), level) <= trees_of(entries).len(),
        lines_of(trees_of(entries).take(deeper_run(trees_of(entries), level) as int))
            == deeper_run(entries, level),
    decreases entries.len(),
{
    let trees = trees_of(entries);
    if entries.len() > 0 {
        let t = entries[0].0;
        let l0 = entries[0].1;
        let rest = entries.drop_first();
        let later = trees_of(rest);
        let n0 = deeper_run(later, l0) as int;
        let node = (with_subtasks(t, tasks_of(later.take(n0))), l0);
        assert(trees.drop_first() =~= later.skip(n0));
        if l0 > level {
            lemma_deeper_lines(rest, level);
            lemma_deeper_run_split(later, l0, level);
            let x = deeper_run(later.skip(n0), level) as int;
            assert(trees.take(1 + x) =~= seq![node] + later.skip(n0).take(x));
            lemma_lines_of_add(seq![node], later.skip(n0).take(x));
            lemma_lines_of_node(t, l0, later.take(n0));
            assert(later.take(n0 + x) =~= later.take(n0) + later.skip(n0).take(x));
            lemma_lines_of_add(later.take(n0), later.skip(n0).take(x));
        }
    }
}

/// The run of deeper entries is the run of higher levels.
proof fn lemma_run_above_is_deeper_run(entries: Seq<Entry>, level: nat)
    ensures
        run_above(levels_of(entries), level) == deeper_run(entries, level),
    decreases entries.len(),
{
    if entries.len() > 0 && entries[0].1 > level {
        lemma_run_above_is_deeper_run(entries.drop_first(), level);
        assert(levels_of(entries).drop_first() =~= levels_of(entries.drop_first()));
    }
}

/// The depths at which the grown forest lists its tasks are the depths at
/// which the lines hang.
proof fn lemma_listing_hangs(entries: Seq<Entry>)
    ensures
        levels_of(listing(forest_of(entries), 0)) == hanging(levels_of(entries)),
    decreases entries.len(),
{
    if entries.len() > 0 {
        let t = entries[0].0;
        let l0 = entries[0].1;
        let rest = entries.drop_first();
        let later = trees_of(rest);
        let n = deeper_run(later, l0) as int;
        lemma_listing_hangs(rest);
        lemma_deeper_lines(rest, l0);
        lemma_run_above_is_deeper_run(rest, l0);
        assert(levels_of(entries).drop_first() =~= levels_of(rest));
        let kids = tasks_of(later.take(n));
        let others = tasks_of(later.skip(n));
        let node = with_subtasks(t, kids);
        assert(forest_of(entries) =~= seq![node] + others);
        assert((seq![node] + others).drop_first() =~= others);
        let below = listing(kids, 1);
        assert(listing_tree(node, 0) =~= seq![(node, 0nat)] + below);
        let all = listing(forest_of(entries), 0);
        assert(forest_of(rest) =~= kids + others);
        lemma_listing_add(kids, others, 0);
        lemma_listing_deeper(kids, 0);
        let lo = levels_of(listing(others, 0));
        assert(levels_of(all) =~= seq![0nat] + levels_of(below) + lo);
    }
}

/// Each task of the grown forest hangs one level below the nearest earlier
/// task that is less deep, and the tasks with no such task before them are
/// the roots.
pub proof fn law_nearest_shallower_parent(entries: Seq<Entry>, k: int)
    requires
        0 <= k < entries.len(),
    ensures
        listing(forest_of(entries), 0).len() == entries.len(),
        listing(forest_of(entries), 0)[k].1 == nesting(levels_of(entries), k),
{
    lemma_listing_hangs(entries);
    lemma_hanging_is_nesting(levels_of(entries), k);
}

} // verus!
