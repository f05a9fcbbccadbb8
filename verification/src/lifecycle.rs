//! The life of a task in the list: it comes in at the front, returns to the
//! front when work on it begins, and goes to the end when it is done.

use crate::selection::{
    is_snapshot, lemma_filter_positions, lemma_filter_positions_step, positions,
};
use crate::task::TaskView;
use crate::time::Timestamp;
use vstd::prelude::*;

verus! {

/// The test that counts a task as active.
pub open spec fn active_task() -> spec_fn(TaskView) -> bool {
    |task: TaskView| task.is_active()
}

/// The test that counts a task as completed.
pub open spec fn completed_task() -> spec_fn(TaskView) -> bool {
    |task: TaskView| !task.is_active()
}

/// How many of `tasks` are active.
pub open spec fn count_active(tasks: Seq<TaskView>) -> nat {
    tasks.filter(active_task()).len()
}

/// How many of `tasks` are completed.
pub open spec fn count_completed(tasks: Seq<TaskView>) -> nat {
    tasks.filter(completed_task()).len()
}

/// Whether no task was completed before it was created.
pub open spec fn all_chronological(tasks: Seq<TaskView>) -> bool {
    forall|i: int| 0 <= i < tasks.len() ==> (#[trigger] tasks[i]).is_chronological()
}

/// Whether every task can be written to a row.
pub open spec fn all_writable(tasks: Seq<TaskView>) -> bool {
    forall|i: int| 0 <= i < tasks.len() ==> (#[trigger] tasks[i]).is_writable()
}

/// `tasks` with the task at `position` moved to the front.
pub open spec fn promoted(tasks: Seq<TaskView>, position: int) -> Seq<TaskView>
    recommends
        0 <= position < tasks.len(),
{
    tasks.remove(position).insert(0, tasks[position])
}

/// `tasks` with the task at `position` completed at `at` and moved to the
/// end.
pub open spec fn completed(tasks: Seq<TaskView>, position: int, at: Timestamp) -> Seq<TaskView>
    recommends
        0 <= position < tasks.len(),
{
    tasks.remove(position).push(tasks[position].completed_at(at))
}

/// The test that a position passes if it is not among `taken`.
pub open spec fn left_test(taken: Seq<usize>) -> spec_fn(usize) -> bool {
    |position: usize| !taken.contains(position)
}

/// The tasks that do not stand at one of the positions `taken`, in their
/// order.
pub open spec fn kept(tasks: Seq<TaskView>, taken: Seq<usize>) -> Seq<TaskView> {
    positions(tasks.len()).filter(left_test(taken)).map_values(
        |position: usize| tasks[position as int],
    )
}

/// The tasks at `positions`, each completed at `at`.
pub open spec fn picked(tasks: Seq<TaskView>, positions: Seq<usize>, at: Timestamp) -> Seq<
    TaskView,
> {
    positions.map_values(|position: usize| tasks[position as int].completed_at(at))
}

/// `tasks` with those at `positions` completed at `at` and moved to the
/// end, in the order in which they stood; the others keep their order.
pub open spec fn completed_all(tasks: Seq<TaskView>, positions: Seq<usize>, at: Timestamp) -> Seq<
    TaskView,
>
    recommends
        is_snapshot(positions, tasks.len()),
{
    kept(tasks, positions) + picked(tasks, positions, at)
}

/// `tasks` with those at the ascending `positions` taken out one by one, the
/// last first, so that the others stay where they are until their turn.
pub open spec fn without(tasks: Seq<TaskView>, positions: Seq<usize>) -> Seq<TaskView>
    recommends
        is_snapshot(positions, tasks.len()),
    decreases positions.len(),
{
    if positions.len() == 0 {
        tasks
    } else {
        without(tasks.remove(positions.last() as int), positions.drop_last())
    }
}

/// A filter lets as much of a sequence through as of the same sequence with
/// one element taken out, and of that element.
proof fn lemma_count_one_moved(tasks: Seq<TaskView>, position: int, test: spec_fn(TaskView) -> bool)
    requires
        0 <= position < tasks.len(),
    ensures
        tasks.filter(test).len() == tasks.remove(position).filter(test).len() + seq![
            tasks[position],
        ].filter(test).len(),
{
    let front = tasks.take(position);
    let one = seq![tasks[position]];
    let back = tasks.skip(position + 1);
    assert(tasks =~= front + one + back);
    assert(tasks.remove(position) =~= front + back);
    Seq::filter_distributes_over_add(front + one, back, test);
    Seq::filter_distributes_over_add(front, one, test);
    Seq::filter_distributes_over_add(front, back, test);
}

/// How much of a single element a filter lets through.
proof fn lemma_count_single(task: TaskView, test: spec_fn(TaskView) -> bool)
    ensures
        seq![task].filter(test).len() == if test(task) {
            1nat
        } else {
            0nat
        },
{
    reveal(Seq::filter);
    let one = seq![task];
    assert(one.drop_last() =~= Seq::<TaskView>::empty());
    assert(one.drop_last().filter(test) =~= Seq::<TaskView>::empty());
    assert(one.last() == task);
}

/// Promoting a task puts it at the front and leaves the others in their
/// order; as many tasks as before are there.
pub proof fn lemma_promoted(tasks: Seq<TaskView>, position: int)
    requires
        0 <= position < tasks.len(),
    ensures
        promoted(tasks, position).len() == tasks.len(),
        promoted(tasks, position)[0] == tasks[position],
        promoted(tasks, position).skip(1) == tasks.remove(position),
        count_active(promoted(tasks, position)) == count_active(tasks),
{
    let after = promoted(tasks, position);
    assert(after.skip(1) =~= tasks.remove(position));
    lemma_count_one_moved(tasks, position, active_task());
    assert(after =~= seq![tasks[position]] + tasks.remove(position));
    Seq::filter_distributes_over_add(seq![tasks[position]], tasks.remove(position), active_task());
}

/// Completing an active task leaves one active task fewer and one completed
/// task more.
pub proof fn lemma_completed_counts(tasks: Seq<TaskView>, position: int, at: Timestamp)
    requires
        0 <= position < tasks.len(),
        tasks[position].is_active(),
    ensures
        count_active(completed(tasks, position, at)) == count_active(tasks) - 1,
        count_completed(completed(tasks, position, at)) == count_completed(tasks) + 1,
{
    let after = completed(tasks, position, at);
    let done = tasks[position].completed_at(at);
    assert(after =~= tasks.remove(position) + seq![done]);
    lemma_count_one_moved(tasks, position, active_task());
    lemma_count_one_moved(tasks, position, completed_task());
    Seq::filter_distributes_over_add(tasks.remove(position), seq![done], active_task());
    Seq::filter_distributes_over_add(tasks.remove(position), seq![done], completed_task());
    lemma_count_single(tasks[position], active_task());
    lemma_count_single(tasks[position], completed_task());
    lemma_count_single(done, active_task());
    lemma_count_single(done, completed_task());
}

/// Completing an active task, at a time that is not before its creation,
/// leaves one active task fewer and one completed task more; the task
/// stands last, completed no earlier than it was created, and the others
/// keep their order.
pub proof fn lemma_completed(tasks: Seq<TaskView>, position: int, at: Timestamp)
    requires
        0 <= position < tasks.len(),
        tasks[position].is_active(),
        at.not_before(tasks[position].created),
    ensures
        completed(tasks, position, at).len() == tasks.len(),
        count_active(completed(tasks, position, at)) == count_active(tasks) - 1,
        count_completed(completed(tasks, position, at)) == count_completed(tasks) + 1,
        completed(tasks, position, at).last() == tasks[position].completed_at(at),
        completed(tasks, position, at).last().is_chronological(),
        completed(tasks, position, at).drop_last() == tasks.remove(position),
{
    lemma_completed_counts(tasks, position, at);
    assert(completed(tasks, position, at).drop_last() =~= tasks.remove(position));
}

/// Once the tasks at `taken` are out, the task that stood at `position`,
/// behind all of them, stands `taken.len()` places further to the front;
/// taking it out there is taking it out first.
pub proof fn lemma_without_next(tasks: Seq<TaskView>, taken: Seq<usize>, position: int)
    requires
        is_snapshot(taken, tasks.len()),
        forall|i: int| 0 <= i < taken.len() ==> taken[i] < position,
        0 <= position < tasks.len(),
    ensures
        without(tasks, taken).len() == tasks.len() - taken.len(),
        taken.len() <= position,
        without(tasks, taken)[position - taken.len()] == tasks[position],
        without(tasks, taken).remove(position - taken.len()) == without(
            tasks.remove(position),
            taken,
        ),
    decreases taken.len(),
{
    if taken.len() > 0 {
        let last = taken.last() as int;
        let rest = taken.drop_last();
        assert(taken[taken.len() - 1] < position);
        assert forall|i: int| 0 <= i < rest.len() implies {
            &&& rest[i] < position - 1
            &&& #[trigger] rest[i] < tasks.len() - 1
        } by {
            assert(rest[i] == taken[i]);
            assert(taken[i] < taken[taken.len() - 1]);
        }
        lemma_without_next(tasks.remove(last), rest, position - 1);
        assert(tasks.remove(last).remove(position - 1) == tasks.remove(position).remove(last));
        assert(without(tasks.remove(position), taken) == without(
            tasks.remove(position).remove(last),
            rest,
        ));
    }
}

/// Taking tasks out leaves as many fewer as were taken.
pub proof fn lemma_without_len(tasks: Seq<TaskView>, taken: Seq<usize>)
    requires
        is_snapshot(taken, tasks.len()),
    ensures
        without(tasks, taken).len() == tasks.len() - taken.len(),
    decreases taken.len(),
{
    if taken.len() > 0 {
        let last = taken.last();
        let rest = taken.drop_last();
        assert forall|i: int| 0 <= i < rest.len() implies #[trigger] rest[i] < tasks.len() - 1 by {
            assert(rest[i] == taken[i]);
            assert(taken[i] < taken[taken.len() - 1]);
        }
        lemma_without_len(tasks.remove(last as int), rest);
    }
}

/// Completing the tasks at one position only is completing that task.
pub proof fn lemma_completed_all_of_one(tasks: Seq<TaskView>, position: usize, at: Timestamp)
    requires
        position < tasks.len() <= usize::MAX,
    ensures
        completed_all(tasks, seq![position], at) == completed(tasks, position as int, at),
{
    let one = seq![position];
    lemma_without_is_kept(tasks, one);
    assert(one.drop_last() =~= Seq::<usize>::empty());
    assert(without(tasks, one) == without(tasks.remove(position as int), one.drop_last()));
    assert(picked(tasks, one, at) =~= seq![tasks[position as int].completed_at(at)]);
    assert(completed_all(tasks, one, at) =~= completed(tasks, position as int, at));
}

/// Completing several tasks keeps the number of tasks, and puts the
/// completed ones last, in the order in which they stood.
pub proof fn lemma_completed_all(tasks: Seq<TaskView>, taken: Seq<usize>, at: Timestamp)
    requires
        is_snapshot(taken, tasks.len()),
        tasks.len() <= usize::MAX,
    ensures
        completed_all(tasks, taken, at).len() == tasks.len(),
        forall|i: int|
            0 <= i < taken.len() ==> #[trigger] completed_all(tasks, taken, at)[tasks.len()
                - taken.len() + i] == tasks[taken[i] as int].completed_at(at),
{
    lemma_without_len(tasks, taken);
    lemma_without_is_kept(tasks, taken);
}

/// Where no task was completed before it was created, none is after a new
/// task has come in, after a task was promoted, or after a task was
/// completed at a time that is not before its creation.
pub proof fn lemma_stays_chronological(
    tasks: Seq<TaskView>,
    position: int,
    at: Timestamp,
    new: TaskView,
)
    requires
        all_chronological(tasks),
    ensures
        new.is_active() ==> all_chronological(tasks.insert(0, new)),
        0 <= position < tasks.len() ==> all_chronological(promoted(tasks, position)),
        0 <= position < tasks.len() && at.not_before(tasks[position].created)
            ==> all_chronological(completed(tasks, position, at)),
{
    if new.is_active() {
        let after = tasks.insert(0, new);
        assert forall|i: int| 0 <= i < after.len() implies (#[trigger] after[i])
                .is_chronological() by {
            if i > 0 {
                assert(after[i] == tasks[i - 1]);
            }
        }
    }
    if 0 <= position < tasks.len() {
        let after = promoted(tasks, position);
        assert forall|i: int| 0 <= i < after.len() implies (#[trigger] after[i])
                .is_chronological() by {
            if i == 0 {
                assert(after[i] == tasks[position]);
            } else if i <= position {
                assert(after[i] == tasks[i - 1]);
            } else {
                assert(after[i] == tasks[i]);
            }
        }
        if at.not_before(tasks[position].created) {
            let after = completed(tasks, position, at);
            assert forall|i: int| 0 <= i < after.len() implies (#[trigger] after[i])
                .is_chronological() by {
                if i < position {
                    assert(after[i] == tasks[i]);
                } else if i < after.len() - 1 {
                    assert(after[i] == tasks[i + 1]);
                }
            }
        }
    }
}

/// Where every task can be written, every task can after a task that can
/// be written has come in, after a task was promoted, or after a task was
/// completed at a time that has a text.
pub proof fn lemma_stays_writable(tasks: Seq<TaskView>, position: int, at: Timestamp, new: TaskView)
    requires
        all_writable(tasks),
    ensures
        new.is_writable() ==> all_writable(tasks.insert(0, new)),
        0 <= position < tasks.len() ==> all_writable(promoted(tasks, position)),
        0 <= position < tasks.len() && at.text() is Some ==> all_writable(
            completed(tasks, position, at),
        ),
{
    if new.is_writable() {
        let after = tasks.insert(0, new);
        assert forall|i: int| 0 <= i < after.len() implies (#[trigger] after[i]).is_writable() by {
            if i > 0 {
                assert(after[i] == tasks[i - 1]);
            }
        }
    }
    if 0 <= position < tasks.len() {
        let after = promoted(tasks, position);
        assert forall|i: int| 0 <= i < after.len() implies (#[trigger] after[i]).is_writable() by {
            if i == 0 {
                assert(after[i] == tasks[position]);
            } else if i <= position {
                assert(after[i] == tasks[i - 1]);
            } else {
                assert(after[i] == tasks[i]);
            }
        }
        if at.text() is Some {
            let after = completed(tasks, position, at);
            assert forall|i: int| 0 <= i < after.len() implies (#[trigger] after[i])
                .is_writable() by {
                if i < position {
                    assert(after[i] == tasks[i]);
                } else if i < after.len() - 1 {
                    assert(after[i] == tasks[i + 1]);
                }
            }
        }
    }
}

/// Below the last of the positions `taken`, leaving out `taken` is leaving
/// out all of them but the last.
proof fn lemma_left_before_last(taken: Seq<usize>, n: nat)
    requires
        taken.len() > 0,
        is_snapshot(taken, (taken.last() + 1) as nat),
        n <= taken.last(),
    ensures
        positions(n).filter(left_test(taken)) == positions(n).filter(
            left_test(taken.drop_last()),
        ),
    decreases n,
{
    let rest = taken.drop_last();
    if n == 0 {
        lemma_filter_positions(0, left_test(taken));
        lemma_filter_positions(0, left_test(rest));
        assert(positions(0).filter(left_test(taken)) =~= positions(0).filter(left_test(rest)));
    } else {
        let m = (n - 1) as nat;
        lemma_left_before_last(taken, m);
        lemma_filter_positions_step(m, left_test(taken));
        lemma_filter_positions_step(m, left_test(rest));
        assert(taken.contains(m as usize) <==> rest.contains(m as usize)) by {
            if taken.contains(m as usize) {
                let i = choose|i: int| 0 <= i < taken.len() && taken[i] == m as usize;
                assert(rest[i] == m as usize);
            }
            if rest.contains(m as usize) {
                let i = choose|i: int| 0 <= i < rest.len() && rest[i] == m as usize;
                assert(taken[i] == m as usize);
            }
        }
    }
}

/// Whether `after` is `before` with each position from `gap` on moved one
/// place further back.
spec fn opens_gap(after: Seq<usize>, before: Seq<usize>, gap: usize) -> bool {
    &&& after.len() == before.len()
    &&& forall|i: int|
        0 <= i < after.len() ==> #[trigger] after[i] == if before[i] < gap {
            before[i] as int
        } else {
            before[i] + 1
        }
}

/// Behind the last of the positions `taken`, what is left of the positions
/// below `n` is what is left of those below `n - 1` when that last position
/// was never there: the same positions, with a gap where it stood.
proof fn lemma_left_behind_last(taken: Seq<usize>, n: nat)
    requires
        taken.len() > 0,
        is_snapshot(taken, (taken.last() + 1) as nat),
        taken.last() < n <= usize::MAX,
    ensures
        opens_gap(
            positions(n).filter(left_test(taken)),
            positions((n - 1) as nat).filter(left_test(taken.drop_last())),
            taken.last(),
        ),
    decreases n,
{
    let last = taken.last();
    let rest = taken.drop_last();
    let m = (n - 1) as nat;
    let after = positions(n).filter(left_test(taken));
    let before = positions(m).filter(left_test(rest));
    lemma_filter_positions_step(m, left_test(taken));
    if m == last {
        lemma_left_before_last(taken, m);
        lemma_filter_positions(m, left_test(rest));
        assert(taken[taken.len() - 1] == last);
        assert(taken.contains(last));
        assert(after == before);
        assert forall|i: int| 0 <= i < after.len() implies #[trigger] after[i] == before[i]
            && before[i] < last by {
            assert(before[i] < m);
        }
    } else {
        lemma_left_behind_last(taken, m);
        lemma_filter_positions_step((m - 1) as nat, left_test(rest));
        assert(!taken.contains(m as usize)) by {
            if taken.contains(m as usize) {
                let i = choose|i: int| 0 <= i < taken.len() && taken[i] == m as usize;
                assert(taken[i] < last + 1);
            }
        }
        assert(!rest.contains((m - 1) as usize)) by {
            if rest.contains((m - 1) as usize) {
                let i = choose|i: int| 0 <= i < rest.len() && rest[i] == (m - 1) as usize;
                assert(taken[i] == rest[i]);
                assert(taken[i] < taken[taken.len() - 1]);
            }
        }
        let earlier = positions(m).filter(left_test(taken));
        let shorter = positions((m - 1) as nat).filter(left_test(rest));
        assert(after == earlier.push(m as usize));
        assert(before == shorter.push((m - 1) as usize));
        assert forall|i: int| 0 <= i < after.len() implies #[trigger] after[i] == if before[i]
            < last {
            before[i] as int
        } else {
            before[i] + 1
        } by {
            if i < earlier.len() {
                assert(after[i] == earlier[i]);
                assert(before[i] == shorter[i]);
            }
        }
    }
}

/// Taking tasks out one by one, the last first, leaves the tasks that do
/// not stand at one of the positions, in their order.
pub proof fn lemma_without_is_kept(tasks: Seq<TaskView>, taken: Seq<usize>)
    requires
        is_snapshot(taken, tasks.len()),
        tasks.len() <= usize::MAX,
    ensures
        without(tasks, taken) == kept(tasks, taken),
    decreases taken.len(),
{
    let n = tasks.len();
    if taken.len() == 0 {
        lemma_left_nothing(n, n);
        assert(taken =~= Seq::<usize>::empty());
        assert(kept(tasks, taken) =~= tasks);
    } else {
        let last = taken.last();
        let rest = taken.drop_last();
        let fewer = tasks.remove(last as int);
        assert(taken[taken.len() - 1] < n);
        assert forall|i: int| 0 <= i < rest.len() implies #[trigger] rest[i] < last by {
            assert(rest[i] == taken[i]);
            assert(taken[i] < taken[taken.len() - 1]);
        }
        lemma_without_is_kept(fewer, rest);
        lemma_left_behind_last(taken, n);
        lemma_filter_positions((n - 1) as nat, left_test(rest));
        let after = positions(n).filter(left_test(taken));
        let before = positions((n - 1) as nat).filter(left_test(rest));
        assert forall|i: int| 0 <= i < after.len() implies fewer[before[i] as int] == tasks[
            #[trigger] after[i] as int
        ] by {
            assert(before[i] < n - 1);
        }
        assert(kept(fewer, rest) =~= kept(tasks, taken));
    }
}

/// Where nothing is taken, every position below `n` is left.
proof fn lemma_left_nothing(n: nat, bound: nat)
    requires
        n <= bound <= usize::MAX,
    ensures
        positions(n).filter(left_test(Seq::empty())) == positions(n),
    decreases n,
{
    let test = left_test(Seq::empty());
    if n == 0 {
        lemma_filter_positions(0, test);
        assert(positions(0).filter(test) =~= positions(0));
    } else {
        let m = (n - 1) as nat;
        lemma_left_nothing(m, bound);
        lemma_filter_positions_step(m, test);
        assert(positions(m).push(m as usize) =~= positions(n));
    }
}

} // verus!
