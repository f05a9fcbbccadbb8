//! Selecting: which positions of a list of tasks a selector takes.

use crate::selector::SelectorView;
use crate::task::TaskView;
use vstd::prelude::*;

verus! {

/// Whether a selection takes completed tasks along.
#[derive(Clone, Copy, Debug, PartialEq, Eq, Structural)]
pub enum DoneHandling {
    /// Completed tasks are selected like the others.
    Show,
    /// Completed tasks are never selected.
    Hide,
}

/// Whether a selection by `selector` under `done` takes `position`.
pub open spec fn is_selected(
    tasks: Seq<TaskView>,
    selector: SelectorView,
    done: DoneHandling,
    position: int,
) -> bool {
    &&& 0 <= position < tasks.len()
    &&& (done is Show || tasks[position].is_active())
    &&& selector.matches(tasks, position)
}

/// The positions below `n`, ascending.
pub open spec fn positions(n: nat) -> Seq<usize> {
    Seq::new(n, |i: int| i as usize)
}

/// The test that a selection applies to each position.
pub open spec fn selection_test(
    tasks: Seq<TaskView>,
    selector: SelectorView,
    done: DoneHandling,
) -> spec_fn(usize) -> bool {
    |position: usize| is_selected(tasks, selector, done, position as int)
}

/// The positions that a selection by `selector` under `done` takes:
/// those of `tasks` that pass the test, ascending.
pub open spec fn selected(tasks: Seq<TaskView>, selector: SelectorView, done: DoneHandling) -> Seq<
    usize,
> {
    positions(tasks.len()).filter(selection_test(tasks, selector, done))
}

/// Whether `positions` are positions of a list of `n` tasks, each greater
/// than the one before.
pub open spec fn is_snapshot(positions: Seq<usize>, n: nat) -> bool {
    &&& forall|i: int| 0 <= i < positions.len() ==> #[trigger] positions[i] < n
    &&& forall|i: int, j: int| 0 <= i < j < positions.len() ==> positions[i] < positions[j]
}

/// Filtering the positions below `n + 1` is filtering those below `n` and
/// then looking at `n`.
pub proof fn lemma_filter_positions_step(n: nat, test: spec_fn(usize) -> bool)
    requires
        n <= usize::MAX,
    ensures
        positions(n + 1).filter(test) == if test(n as usize) {
            positions(n).filter(test).push(n as usize)
        } else {
            positions(n).filter(test)
        },
{
    reveal(Seq::filter);
    assert(positions(n + 1).drop_last() == positions(n));
    assert(positions(n + 1).last() == n as usize);
}

/// What is left of a filter over the positions below `n`: positions below
/// `n`, ascending, and exactly those that pass the test.
pub proof fn lemma_filter_positions(n: nat, test: spec_fn(usize) -> bool)
    requires
        n <= usize::MAX,
    ensures
        is_snapshot(positions(n).filter(test), n),
        forall|p: usize| #[trigger] positions(n).filter(test).contains(p) <==> p < n && test(p),
    decreases n,
{
    if n == 0 {
        reveal(Seq::filter);
        assert(positions(0).filter(test) == Seq::<usize>::empty());
    } else {
        let m = (n - 1) as nat;
        let before = positions(m).filter(test);
        let now = positions(n).filter(test);
        lemma_filter_positions(m, test);
        lemma_filter_positions_step(m, test);
        assert forall|p: usize| #[trigger] now.contains(p) <==> p < n && test(p) by {
            if now.contains(p) {
                let i = choose|i: int| 0 <= i < now.len() && now[i] == p;
                if i < before.len() {
                    assert(before[i] == p);
                    assert(before.contains(p));
                }
            }
            if p < n && test(p) {
                if p < m {
                    assert(before.contains(p));
                    let i = choose|i: int| 0 <= i < before.len() && before[i] == p;
                    assert(now[i] == p);
                } else {
                    assert(now[now.len() - 1] == p);
                }
            }
        }
    }
}

/// A selection is a list of positions of the tasks, each greater than the
/// one before, and it holds a position if and only if the task there is
/// shown and the selector picks it.
pub proof fn lemma_selected(tasks: Seq<TaskView>, selector: SelectorView, done: DoneHandling)
    requires
        tasks.len() <= usize::MAX,
    ensures
        is_snapshot(selected(tasks, selector, done), tasks.len()),
        forall|p: usize| #[trigger]
            selected(tasks, selector, done).contains(p) <==> is_selected(
                tasks,
                selector,
                done,
                p as int,
            ),
{
    lemma_filter_positions(tasks.len(), selection_test(tasks, selector, done));
}

/// Selecting everything, completed tasks included, gives every position
/// from the first to the last.
pub proof fn lemma_select_all(tasks: Seq<TaskView>)
    requires
        tasks.len() <= usize::MAX,
    ensures
        selected(tasks, SelectorView::All, DoneHandling::Show) == positions(tasks.len()),
{
    lemma_select_all_below(tasks, tasks.len());
}

/// Selecting everything keeps each of the first `n` positions.
proof fn lemma_select_all_below(tasks: Seq<TaskView>, n: nat)
    requires
        n <= tasks.len() <= usize::MAX,
    ensures
        positions(n).filter(selection_test(tasks, SelectorView::All, DoneHandling::Show))
            == positions(n),
    decreases n,
{
    let test = selection_test(tasks, SelectorView::All, DoneHandling::Show);
    if n == 0 {
        lemma_filter_positions(0, test);
        assert(positions(0).filter(test) =~= positions(0));
    } else {
        let m = (n - 1) as nat;
        lemma_select_all_below(tasks, m);
        lemma_filter_positions_step(m, test);
        assert(test(m as usize));
        assert(positions(m).push(m as usize) =~= positions(n));
    }
}

/// A selection that hides completed tasks holds the position of no
/// completed task.
pub proof fn lemma_hidden_not_selected(tasks: Seq<TaskView>, selector: SelectorView)
    requires
        tasks.len() <= usize::MAX,
    ensures
        forall|i: int|
            #![trigger selected(tasks, selector, DoneHandling::Hide)[i]]
            0 <= i < selected(tasks, selector, DoneHandling::Hide).len() ==> tasks[selected(
                tasks,
                selector,
                DoneHandling::Hide,
            )[i] as int].is_active(),
{
    let found = selected(tasks, selector, DoneHandling::Hide);
    lemma_selected(tasks, selector, DoneHandling::Hide);
    assert forall|i: int| 0 <= i < found.len() implies tasks[#[trigger] found[i] as int]
        .is_active() by {
        assert(found.contains(found[i]));
    }
}

} // verus!
