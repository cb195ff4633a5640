//! From a flat list of tasks with their nesting depths to a forest.
//!
//! A task is nested under the nearest earlier task that is less deep, and is
//! a root where there is none. Read from the last task back to the first, that
//! is: each task takes as its own the trees that directly follow it and are
//! deeper than it is.

use crate::task_model::{forest_view, lemma_forest_view, lemma_forest_view_push, Task, TaskView};
use std::collections::HashSet;
use vstd::prelude::*;
use vstd::set_lib::{lemma_int_range, lemma_len_subset, set_int_range};

verus! {

broadcast use vstd::std_specs::hash::group_hash_axioms;

/// A task, or the tree grown under it, with its depth.
pub type Entry = (TaskView, nat);

/// How many trees at the start of `later` are deeper than `level`.
pub open spec fn deeper_run(later: Seq<Entry>, level: nat) -> nat
    decreases later.len(),
{
    if later.len() > 0 && later[0].1 > level {
        1 + deeper_run(later.drop_first(), level)
    } else {
        0
    }
}

/// The tasks of a sequence of entries.
pub open spec fn tasks_of(entries: Seq<Entry>) -> Seq<TaskView> {
    entries.map_values(|e: Entry| e.0)
}

/// The task `t` with `kids` nested under it; with nothing nested where there
/// are none.
pub open spec fn with_subtasks(t: TaskView, kids: Seq<TaskView>) -> TaskView {
    TaskView {
        subtasks: if kids.len() == 0 {
            None
        } else {
            Some(kids)
        },
        ..t
    }
}

/// The trees that stand at the top once the task `t` of depth `level` is put
/// before the trees `later`: `t` takes the trees at the start of `later` that
/// are deeper than it is, and stands before the rest.
pub open spec fn attach(t: TaskView, level: nat, later: Seq<Entry>) -> Seq<Entry> {
    let n = deeper_run(later, level) as int;
    seq![(with_subtasks(t, tasks_of(later.take(n))), level)] + later.skip(n)
}

/// The trees that the entries grow into, each with the depth of its root.
pub open spec fn trees_of(entries: Seq<Entry>) -> Seq<Entry>
    decreases entries.len(),
{
    if entries.len() == 0 {
        Seq::empty()
    } else {
        attach(entries[0].0, entries[0].1, trees_of(entries.drop_first()))
    }
}

/// The forest that tasks with the given depths grow into.
pub open spec fn forest_of(entries: Seq<Entry>) -> Seq<TaskView> {
    tasks_of(trees_of(entries))
}

/// A run of `n` deeper trees at the start of `later` that cannot be extended
/// is the deeper run.
pub proof fn lemma_deeper_run(later: Seq<Entry>, level: nat, n: int)
    requires
        0 <= n <= later.len(),
        forall|j: int| 0 <= j < n ==> (#[trigger] later[j]).1 > level,
        n < later.len() ==> later[n].1 <= level,
    ensures
        deeper_run(later, level) == n,
    decreases n,
{
    if n > 0 {
        let rest = later.drop_first();
        lemma_deeper_run(rest, level, n - 1);
    }
}

/// A stack of trees, read from its top: the view of each tree with its depth.
pub open spec fn stack_view(stack: Seq<(Task, usize)>) -> Seq<Entry> {
    Seq::new(
        stack.len(),
        |i: int| (stack[stack.len() - 1 - i].0@, stack[stack.len() - 1 - i].1 as nat),
    )
}

/// The entries of a list of tasks with their depths.
pub open spec fn entries_of(items: Seq<(Task, usize)>) -> Seq<Entry> {
    items.map_values(|e: (Task, usize)| (e.0@, e.1 as nat))
}

/// Takes from the top of `stack` the trees that are deeper than `level`.
fn take_deeper(stack: &mut Vec<(Task, usize)>, level: usize) -> (kids: Vec<Task>)
    ensures
        ({
            let before = stack_view(old(stack)@);
            let n = deeper_run(before, level as nat) as int;
            &&& n <= before.len()
            &&& forest_view(kids@) == tasks_of(before.take(n))
            &&& stack_view(final(stack)@) == before.skip(n)
        }),
{
    let ghost all = stack@;
    let ghost before = stack_view(all);
    let mut kids: Vec<Task> = Vec::new();
    while stack.len() > 0 && stack[stack.len() - 1].1 > level
        invariant
            stack.len() <= all.len(),
            stack@ == all.take(stack.len() as int),
            before == stack_view(all),
            forall|j: int| 0 <= j < all.len() - stack.len() ==> (#[trigger] before[j]).1 > level,
            forest_view(kids@) == tasks_of(before.take(all.len() - stack.len())),
        decreases stack.len(),
    {
        let ghost j = all.len() - stack.len();
        let top = stack.pop();
        match top {
            Some((task, _)) => {
                proof {
                    lemma_forest_view_push(kids@, task);
                    assert(tasks_of(before.take(j + 1)) =~= tasks_of(before.take(j)).push(
                        before[j].0,
                    ));
                }
                kids.push(task);
            },
            None => {},
        }
    }
    proof {
        let n = all.len() - stack.len();
        lemma_deeper_run(before, level as nat, n);
    }
    kids
}

/// Grows the forest of `items`, each a task with its depth, in document
/// order. What a task holds as nested tasks beforehand is replaced.
pub fn assemble(items: Vec<(Task, usize)>) -> (r: Vec<Task>)
    ensures
        forest_view(r@) == forest_of(entries_of(items@)),
{
    let ghost all = items@;
    let ghost entries = entries_of(all);
    let mut items = items;
    let mut stack: Vec<(Task, usize)> = Vec::new();
    while items.len() > 0
        invariant
            items@ == all.take(items.len() as int),
            items.len() <= all.len(),
            entries == entries_of(all),
            stack_view(stack@) == trees_of(entries.skip(items.len() as int)),
        decreases items.len(),
    {
        let ghost k = items.len() - 1;
        match items.pop() {
            Some((task, level)) => {
                let kids = take_deeper(&mut stack, level);
                let mut task = task;
                if kids.len() == 0 {
                    task.subtasks = None;
                } else {
                    task.subtasks = Some(kids);
                }
                proof {
                    lemma_forest_view(kids@);
                    assert(entries.skip(k).drop_first() == entries.skip(k + 1));
                }
                stack.push((task, level));
            },
            None => {},
        }
    }
    let ghost trees = stack_view(stack@);
    let ghost full = stack@;
    let mut out: Vec<Task> = Vec::new();
    proof {
        assert(entries.skip(0) == entries);
    }
    while stack.len() > 0
        invariant
            stack.len() <= full.len(),
            stack@ == full.take(stack.len() as int),
            trees == stack_view(full),
            forest_view(out@) == tasks_of(trees.take(full.len() - stack.len())),
        decreases stack.len(),
    {
        match stack.pop() {
            Some((task, _)) => {
                proof {
                    lemma_forest_view_push(out@, task);
                }
                out.push(task);
            },
            None => {},
        }
    }
    out
}

/// The tasks nested under `t`.
pub open spec fn kids_of(t: TaskView) -> Seq<TaskView> {
    match t.subtasks {
        Some(kids) => kids,
        None => Seq::empty(),
    }
}

/// The task `t` with nothing nested under it.
pub open spec fn bare(t: TaskView) -> TaskView {
    TaskView { subtasks: None, ..t }
}

/// The tasks of a forest in document order: each task before what is nested
/// under it, and all of that before the next task; each without its nested
/// tasks.
pub open spec fn flattened(forest: Seq<TaskView>) -> Seq<TaskView>
    decreases forest, 0nat,
{
    if forest.len() == 0 {
        Seq::empty()
    } else {
        flattened_tree(forest[0]) + flattened(forest.drop_first())
    }
}

/// The task `t`, then the tasks nested under it, in document order.
pub open spec fn flattened_tree(t: TaskView) -> Seq<TaskView>
    decreases t, 1nat,
{
    seq![bare(t)] + match t.subtasks {
        Some(kids) => flattened(kids),
        None => Seq::empty(),
    }
}

/// The lines that a forest is written in: the tasks in document order, each
/// with its depth, the roots at depth `depth`.
pub open spec fn listing(forest: Seq<TaskView>, depth: nat) -> Seq<Entry>
    decreases forest, 0nat,
{
    if forest.len() == 0 {
        Seq::empty()
    } else {
        listing_tree(forest[0], depth) + listing(forest.drop_first(), depth)
    }
}

/// The lines that a tree is written in, its root at depth `depth`.
pub open spec fn listing_tree(t: TaskView, depth: nat) -> Seq<Entry>
    decreases t, 1nat,
{
    seq![(t, depth)] + match t.subtasks {
        Some(kids) => listing(kids, depth + 1),
        None => Seq::empty(),
    }
}

/// Whether no task of the forest holds an empty list of nested tasks: a
/// task with nothing nested holds none.
pub open spec fn well_nested(forest: Seq<TaskView>) -> bool
    decreases forest, 0nat,
{
    forest.len() > 0 ==> well_nested_tree(forest[0]) && well_nested(forest.drop_first())
}

/// Whether neither `t` nor a task under it holds an empty list of nested
/// tasks.
pub open spec fn well_nested_tree(t: TaskView) -> bool
    decreases t, 1nat,
{
    match t.subtasks {
        Some(kids) => kids.len() > 0 && well_nested(kids),
        None => true,
    }
}

/// The trees `forest`, each with the depth `depth`.
pub open spec fn at_depth(forest: Seq<TaskView>, depth: nat) -> Seq<Entry> {
    forest.map_values(|t: TaskView| (t, depth))
}

/// Flattening one forest after another flattens both.
pub proof fn lemma_flattened_add(a: Seq<TaskView>, b: Seq<TaskView>)
    ensures
        flattened(a + b) == flattened(a) + flattened(b),
    decreases a.len(),
{
    if a.len() > 0 {
        assert((a + b).drop_first() == a.drop_first() + b);
        lemma_flattened_add(a.drop_first(), b);
        assert(flattened_tree(a[0]) + (flattened(a.drop_first()) + flattened(b)) == (
        flattened_tree(a[0]) + flattened(a.drop_first())) + flattened(b));
    }
}

/// The listing of one forest after another lists both.
pub proof fn lemma_listing_add(a: Seq<TaskView>, b: Seq<TaskView>, depth: nat)
    ensures
        listing(a + b, depth) == listing(a, depth) + listing(b, depth),
    decreases a.len(),
{
    if a.len() > 0 {
        assert((a + b).drop_first() == a.drop_first() + b);
        lemma_listing_add(a.drop_first(), b, depth);
        assert(listing_tree(a[0], depth) + (listing(a.drop_first(), depth) + listing(b, depth)) == (
        listing_tree(a[0], depth) + listing(a.drop_first(), depth)) + listing(b, depth));
    }
}

/// Nothing is lost and nothing changes place: the forest grown from a list
/// of tasks holds, in document order, exactly those tasks.
pub proof fn law_forest_keeps_order(entries: Seq<Entry>)
    ensures
        flattened(forest_of(entries)) == tasks_of(entries).map_values(|t: TaskView| bare(t)),
    decreases entries.len(),
{
    let goal = tasks_of(entries).map_values(|t: TaskView| bare(t));
    if entries.len() > 0 {
        let t = entries[0].0;
        let level = entries[0].1;
        let rest = entries.drop_first();
        let later = trees_of(rest);
        law_forest_keeps_order(rest);
        let n = deeper_run(later, level) as int;
        lemma_deeper_run_bounds(later, level);
        let kids = tasks_of(later.take(n));
        let node = with_subtasks(t, kids);
        let others = tasks_of(later.skip(n));
        assert(forest_of(entries) =~= seq![node] + others);
        assert((seq![node] + others).drop_first() =~= others);
        assert(flattened_tree(node) =~= seq![bare(t)] + flattened(kids));
        assert(kids + others =~= tasks_of(later));
        lemma_flattened_add(kids, others);
        assert(goal =~= seq![bare(t)] + tasks_of(rest).map_values(|t: TaskView| bare(t)));
    }
}

/// The deeper run is a prefix.
pub proof fn lemma_deeper_run_bounds(later: Seq<Entry>, level: nat)
    ensures
        deeper_run(later, level) <= later.len(),
    decreases later.len(),
{
    if later.len() > 0 && later[0].1 > level {
        lemma_deeper_run_bounds(later.drop_first(), level);
    }
}

/// The trees grown from the listing of a forest, followed by more lines that
/// do not hang under it, are the forest itself, followed by the trees of
/// those lines.
pub proof fn lemma_trees_of_listing(forest: Seq<TaskView>, depth: nat, rest: Seq<Entry>)
    requires
        well_nested(forest),
        trees_of(rest).len() > 0 ==> trees_of(rest)[0].1 <= depth,
    ensures
        trees_of(listing(forest, depth) + rest) == at_depth(forest, depth) + trees_of(rest),
    decreases forest, 0nat,
{
    if forest.len() > 0 {
        let t = forest[0];
        let tail = forest.drop_first();
        let rest1 = listing(tail, depth) + rest;
        lemma_trees_of_listing(tail, depth, rest);
        lemma_trees_of_tree(t, depth, rest1);
        assert(listing(forest, depth) + rest =~= listing_tree(t, depth) + rest1);
    }
}

/// The trees grown from the listing of one tree, followed by more lines that
/// do not hang under it, are the tree itself, followed by the trees of those
/// lines.
pub proof fn lemma_trees_of_tree(t: TaskView, depth: nat, rest: Seq<Entry>)
    requires
        well_nested_tree(t),
        trees_of(rest).len() > 0 ==> trees_of(rest)[0].1 <= depth,
    ensures
        trees_of(listing_tree(t, depth) + rest) == seq![(t, depth)] + trees_of(rest),
    decreases t, 1nat,
{
    let kids = kids_of(t);
    let below = listing(kids, depth + 1);
    let all = listing_tree(t, depth) + rest;
    assert(all.drop_first() =~= below + rest);
    let r = trees_of(rest);
    if t.subtasks is Some {
        lemma_trees_of_listing(kids, depth + 1, rest);
    }
    let later = at_depth(kids, depth + 1) + r;
    lemma_deeper_run(later, depth, kids.len() as int);
    assert(tasks_of(later.take(kids.len() as int)) =~= kids);
}

/// The entries with nothing nested under their tasks.
pub open spec fn bared(entries: Seq<Entry>) -> Seq<Entry> {
    entries.map_values(|e: Entry| (bare(e.0), e.1))
}

/// What is nested under a task beforehand has no part in the trees that
/// grow.
pub proof fn lemma_trees_ignore_nested(entries: Seq<Entry>)
    ensures
        trees_of(bared(entries)) == trees_of(entries),
    decreases entries.len(),
{
    if entries.len() > 0 {
        let rest = entries.drop_first();
        lemma_trees_ignore_nested(rest);
        assert(bared(entries).drop_first() =~= bared(rest));
        let later = trees_of(rest);
        let n = deeper_run(later, entries[0].1) as int;
        assert(with_subtasks(bare(entries[0].0), tasks_of(later.take(n))) == with_subtasks(
            entries[0].0,
            tasks_of(later.take(n)),
        ));
    }
}

/// Written out and grown again, a forest comes back as it was: the forest
/// grown from the listing of a forest is that forest.
pub proof fn law_forest_of_listing(forest: Seq<TaskView>, depth: nat)
    requires
        well_nested(forest),
    ensures
        forest_of(listing(forest, depth)) == forest,
{
    lemma_trees_of_listing(forest, depth, Seq::empty());
}

/// Whether `n` is the smallest positive integer that `used` does not hold.
pub open spec fn is_smallest_free(used: Set<int>, n: int) -> bool {
    &&& n >= 1
    &&& !used.contains(n)
    &&& forall|m: int| 1 <= m < n ==> used.contains(m)
}

/// The smallest positive integer that `used` does not hold.
pub open spec fn smallest_free(used: Set<int>) -> int {
    choose|n: int| is_smallest_free(used, n)
}

/// A finite set that holds every integer from 1 up to `next` has at least
/// that many members.
pub proof fn lemma_run_fits(used: Set<int>, next: int)
    requires
        used.finite(),
        next >= 1,
        forall|m: int| 1 <= m < next ==> used.contains(m),
    ensures
        next - 1 <= used.len(),
{
    lemma_int_range(1, next);
    lemma_len_subset(set_int_range(1, next), used);
}

/// Searching upward from `from`, below which every positive integer is in
/// use, finds the smallest free one.
proof fn lemma_search_finds(used: Set<int>, from: int)
    requires
        used.finite(),
        from >= 1,
        forall|m: int| 1 <= m < from ==> used.contains(m),
    ensures
        is_smallest_free(used, smallest_free(used)),
    decreases used.len() + 1 - from,
{
    if used.contains(from) {
        lemma_run_fits(used, from + 1);
        lemma_search_finds(used, from + 1);
    } else {
        assert(is_smallest_free(used, from));
    }
}

/// A finite set leaves a smallest positive integer free.
pub proof fn lemma_smallest_free_exists(used: Set<int>)
    requires
        used.finite(),
    ensures
        is_smallest_free(used, smallest_free(used)),
{
    lemma_search_finds(used, 1);
}

/// The identifiers in use in one document, and the next candidate for a new
/// one.
pub struct IdAllocator {
    used: HashSet<i64>,
    next: i64,
    model: Ghost<Set<int>>,
}

impl View for IdAllocator {
    type V = Set<int>;

    /// The identifiers in use.
    closed spec fn view(&self) -> Set<int> {
        self.model@
    }
}

impl IdAllocator {
    /// What holds of every allocator: the set is finite, and the candidate
    /// has not passed an unused identifier.
    pub closed spec fn wf(&self) -> bool {
        &&& self.model@.finite()
        &&& self.next >= 1
        &&& forall|m: int| 1 <= m < self.next ==> self.model@.contains(m)
        &&& forall|x: i64| self.used@.contains(x) <==> self.model@.contains(x as int)
        &&& forall|n: int| self.model@.contains(n) ==> i64::MIN <= n <= i64::MAX
    }

    /// An allocator with no identifier in use.
    pub fn new() -> (r: IdAllocator)
        ensures
            r.wf(),
            r@ == Set::<int>::empty(),
    {
        IdAllocator { used: HashSet::new(), next: 1, model: Ghost(Set::empty()) }
    }

    /// Every allocator holds finitely many identifiers.
    pub proof fn lemma_finite(&self)
        requires
            self.wf(),
        ensures
            self@.finite(),
    {
    }

    /// Marks `id` as in use.
    pub fn register(&mut self, id: i64)
        requires
            old(self).wf(),
        ensures
            final(self).wf(),
            final(self)@ == old(self)@.insert(id as int),
    {
        self.used.insert(id);
        self.model = Ghost(self.model@.insert(id as int));
    }

    /// Whether `id` is in use.
    pub fn contains(&self, id: i64) -> (r: bool)
        requires
            self.wf(),
        ensures
            r == self@.contains(id as int),
    {
        self.used.contains(&id)
    }

    /// Takes the smallest positive identifier that is not in use, and marks
    /// it as in use.
    pub fn allocate(&mut self) -> (id: i64)
        requires
            old(self).wf(),
            old(self)@.len() + 1 < i64::MAX,
        ensures
            final(self).wf(),
            is_smallest_free(old(self)@, id as int),
            final(self)@ == old(self)@.insert(id as int),
    {
        let ghost model = self.model@;
        proof {
            lemma_run_fits(model, self.next as int);
        }
        while self.used.contains(&self.next)
            invariant
                self.wf(),
                self.model@ == model,
                model.len() + 1 < i64::MAX,
                self.next - 1 <= model.len(),
            decreases model.len() + 1 - self.next,
        {
            proof {
                lemma_run_fits(model, self.next + 1);
            }
            self.next = self.next + 1;
        }
        let id = self.next;
        self.used.insert(id);
        self.model = Ghost(model.insert(id as int));
        self.next = id + 1;
        id
    }
}

} // verus!
