//! The ordered list of tasks and what can be done with it.

use crate::console::Console;
use crate::lifecycle::{
    completed, completed_all, count_active, count_completed, lemma_completed_counts,
    lemma_without_is_kept, lemma_without_next, picked, promoted, without,
};
use crate::selection::{
    is_selected, is_snapshot, lemma_filter_positions, lemma_filter_positions_step,
    lemma_hidden_not_selected, lemma_select_all, lemma_selected, positions, selected,
    selection_test, DoneHandling,
};
use crate::selector::{Selector, SelectorView};
use crate::task::{Task, TaskView};
use crate::text::{decimal, decimal_string};
use crate::time::Timestamp;
use vstd::prelude::*;

verus! {

/// All tasks, in the order in which they are shown. A new task comes in at
/// the front, which is position 0; a completed task goes to the end.
#[derive(Clone, Debug, PartialEq, Eq)]
pub struct Tasks {
    pub tasks: Vec<Task>,
}

impl View for Tasks {
    type V = Seq<TaskView>;

    open spec fn view(&self) -> Seq<TaskView> {
        self.tasks.deep_view()
    }
}

/// What went wrong with a task.
#[derive(Clone, Copy, Debug, PartialEq, Eq, Structural)]
pub enum TaskError {
    /// There is no task at the position.
    NotFound,
}

impl TaskError {
    /// What to tell the user.
    pub fn message(&self) -> (r: &'static str)
        ensures
            r@ == "Task not found"@,
    {
        "Task not found"
    }
}

/// The line that says that `task` was created.
pub open spec fn created_notice(task: TaskView) -> Seq<char> {
    "Created new task: "@ + task.label()
}

/// The line that says that work on `task` has begun.
pub open spec fn working_notice(task: TaskView) -> Seq<char> {
    "working on "@ + task.label() + "!"@
}

/// The line that says that `task` is done.
pub open spec fn completed_notice(task: TaskView) -> Seq<char> {
    "completed "@ + task.label() + "!"@
}

/// The lines that say that the tasks at `positions` are done.
pub open spec fn completed_notices(tasks: Seq<TaskView>, positions: Seq<usize>) -> Seq<Seq<char>> {
    positions.map_values(|position: usize| completed_notice(tasks[position as int]))
}

/// The line that shows the task at `position`: its number, counted from 1,
/// and the task.
pub open spec fn task_line(tasks: Seq<TaskView>, position: int) -> Seq<char>
    recommends
        0 <= position < tasks.len(),
{
    decimal((position + 1) as nat) + " "@ + tasks[position].label()
}

/// The lines that show the tasks at `positions`.
pub open spec fn task_lines(tasks: Seq<TaskView>, positions: Seq<usize>) -> Seq<Seq<char>> {
    positions.map_values(|position: usize| task_line(tasks, position as int))
}

/// The listing of the active tasks: a heading, then one line for each
/// position that a selection of everything but the completed tasks takes.
pub open spec fn status_lines(tasks: Seq<TaskView>) -> Seq<Seq<char>> {
    seq!["Tasks:"@] + task_lines(tasks, selected(tasks, SelectorView::All, DoneHandling::Hide))
}

impl Tasks {
    /// A list without tasks.
    pub fn new() -> (tasks: Tasks)
        ensures
            tasks@ == Seq::<TaskView>::empty(),
    {
        Tasks { tasks: Vec::new() }
    }

    /// How many tasks there are, completed ones included.
    pub fn len(&self) -> (n: usize)
        ensures
            n == self@.len(),
    {
        self.tasks.len()
    }

    /// The positions that `selector` picks, ascending; under
    /// [`DoneHandling::Hide`] only those of active tasks.
    pub fn select(&self, selector: &Selector, done: DoneHandling) -> (found: Vec<usize>)
        requires
            selector@.is_usable(),
        ensures
            found@ == selected(self@, selector@, done),
            is_snapshot(found@, self@.len()),
            forall|p: usize| #[trigger]
                found@.contains(p) <==> is_selected(self@, selector@, done, p as int),
            selector@ is All && done is Show ==> found@ == positions(self@.len()),
            done is Hide ==> forall|i: int|
                0 <= i < found@.len() ==> self@[#[trigger] found@[i] as int].is_active(),
    {
        let mut found: Vec<usize> = Vec::new();
        let ghost test = selection_test(self@, selector@, done);
        proof {
            lemma_filter_positions(0, test);
        }
        let mut position: usize = 0;
        while position < self.tasks.len()
            invariant
                position <= self.tasks.len(),
                selector@.is_usable(),
                test == selection_test(self@, selector@, done),
                found@ == positions(position as nat).filter(test),
            decreases self.tasks.len() - position,
        {
            proof {
                lemma_filter_positions_step(position as nat, test);
            }
            let shown = match done {
                DoneHandling::Show => true,
                DoneHandling::Hide => self.tasks[position].is_active(),
            };
            if shown && selector.matches(self, position) {
                found.push(position);
            }
            position = position + 1;
        }
        proof {
            lemma_selected(self@, selector@, done);
            if selector@ is All && done is Show {
                lemma_select_all(self@);
            }
            if done is Hide {
                lemma_hidden_not_selected(self@, selector@);
            }
        }
        found
    }

    /// Puts `task` at the front and says so.
    pub fn create(&mut self, task: Task, console: &mut Console)
        ensures
            final(self)@ == old(self)@.insert(0, task@),
            final(console)@ == old(console)@.push(created_notice(task@)),
    {
        let mut notice = "Created new task: ".to_owned();
        notice.append(task.label().as_str());
        console.emit(notice);
        self.tasks.insert(0, task);
        assert(self@ =~= old(self)@.insert(0, task@));
    }

    /// Moves the task at position `task` to the front and says so. Where
    /// there is no such task, nothing happens.
    pub fn work_on(&mut self, task: usize, console: &mut Console) -> (r: Result<(), TaskError>)
        ensures
            match r {
                Ok(_) => {
                    &&& task < old(self)@.len()
                    &&& final(self)@ == promoted(old(self)@, task as int)
                    &&& final(self)@.len() == old(self)@.len()
                    &&& final(self)@[0] == old(self)@[task as int]
                    &&& final(console)@ == old(console)@.push(
                        working_notice(old(self)@[task as int]),
                    )
                },
                Err(e) => {
                    &&& e == TaskError::NotFound
                    &&& task >= old(self)@.len()
                    &&& *final(self) == *old(self)
                    &&& *final(console) == *old(console)
                },
            },
    {
        if task < self.tasks.len() {
            let mut notice = "working on ".to_owned();
            notice.append(self.tasks[task].label().as_str());
            notice.append("!");
            console.emit(notice);
            let working = self.tasks.remove(task);
            self.tasks.insert(0, working);
            assert(self@ =~= promoted(old(self)@, task as int));
            Ok(())
        } else {
            Err(TaskError::NotFound)
        }
    }

    /// Completes the task at position `num` at the time `at`, moves it to
    /// the end and says so. Where there is no such task, nothing happens.
    pub fn complete_at(&mut self, num: usize, at: Timestamp, console: &mut Console) -> (r: Result<
        (),
        TaskError,
    >)
        ensures
            match r {
                Ok(_) => {
                    &&& num < old(self)@.len()
                    &&& final(self)@ == completed(old(self)@, num as int, at)
                    &&& final(self)@.last() == old(self)@[num as int].completed_at(at)
                    &&& old(self)@[num as int].is_active() ==> {
                        &&& count_active(final(self)@) == count_active(old(self)@) - 1
                        &&& count_completed(final(self)@) == count_completed(old(self)@) + 1
                    }
                    &&& at.not_before(old(self)@[num as int].created)
                        ==> final(self)@.last().is_chronological()
                    &&& final(console)@ == old(console)@.push(
                        completed_notice(old(self)@[num as int]),
                    )
                },
                Err(e) => {
                    &&& e == TaskError::NotFound
                    &&& num >= old(self)@.len()
                    &&& *final(self) == *old(self)
                    &&& *final(console) == *old(console)
                },
            },
    {
        if num < self.tasks.len() {
            let mut task = self.tasks.remove(num);
            let mut notice = "completed ".to_owned();
            notice.append(task.label().as_str());
            notice.append("!");
            console.emit(notice);
            task.complete_at(at);
            self.tasks.push(task);
            assert(self@ =~= completed(old(self)@, num as int, at));
            proof {
                if old(self)@[num as int].is_active() {
                    lemma_completed_counts(old(self)@, num as int, at);
                }
            }
            Ok(())
        } else {
            Err(TaskError::NotFound)
        }
    }

    /// Completes the task at position `num` now, moves it to the end and
    /// says so. Where there is no such task, nothing happens. The time of
    /// completion is what the clock gives: a time that can be written.
    pub fn complete(&mut self, num: usize, console: &mut Console) -> (r: Result<(), TaskError>)
        ensures
            match r {
                Ok(_) => {
                    &&& num < old(self)@.len()
                    &&& exists|at: Timestamp|
                        {
                            &&& at.is_in_range()
                            &&& at.text() is Some
                            &&& final(self)@ == completed(old(self)@, num as int, at)
                        }
                    &&& final(console)@ == old(console)@.push(
                        completed_notice(old(self)@[num as int]),
                    )
                },
                Err(e) => {
                    &&& e == TaskError::NotFound
                    &&& num >= old(self)@.len()
                    &&& *final(self) == *old(self)
                    &&& *final(console) == *old(console)
                },
            },
    {
        self.complete_at(num, Timestamp::now(), console)
    }

    /// Completes at the time `at` the tasks that stand at `positions`, one
    /// after the other from the first, each where it stands by then, and
    /// says so for each. They end up behind all others, in the order in
    /// which they stood.
    pub fn complete_all(&mut self, positions: &Vec<usize>, at: Timestamp, console: &mut Console)
        requires
            is_snapshot(positions@, old(self)@.len()),
        ensures
            final(self)@ == completed_all(old(self)@, positions@, at),
            final(console)@ == old(console)@ + completed_notices(old(self)@, positions@),
    {
        let mut done: usize = 0;
        assert(self.tasks.len() <= usize::MAX);
        assert(self@ =~= without(old(self)@, positions@.take(0)) + picked(
            old(self)@,
            positions@.take(0),
            at,
        ));
        assert(console@ =~= old(console)@ + completed_notices(old(self)@, positions@.take(0)));
        while done < positions.len()
            invariant
                done <= positions.len(),
                is_snapshot(positions@, old(self)@.len()),
                self@ == without(old(self)@, positions@.take(done as int)) + picked(
                    old(self)@,
                    positions@.take(done as int),
                    at,
                ),
                console@ == old(console)@ + completed_notices(
                    old(self)@,
                    positions@.take(done as int),
                ),
            decreases positions.len() - done,
        {
            let ghost before = old(self)@;
            let ghost taken = positions@.take(done as int);
            let ghost next = positions@.take(done + 1);
            let position = positions[done];
            proof {
                assert forall|i: int| 0 <= i < taken.len() implies taken[i] < position by {
                    assert(taken[i] == positions@[i]);
                }
                lemma_without_next(before, taken, position as int);
                assert(next.drop_last() == taken);
                assert(next.last() == position);
                assert(self@.len() == before.len());
            }
            let live = position - done;
            let r = self.complete_at(live, at, console);
            assert(r is Ok);
            assert(self@ =~= without(before, next) + picked(before, next, at));
            assert(console@ =~= old(console)@ + completed_notices(before, next));
            done = done + 1;
        }
        assert(positions@.take(done as int) == positions@);
        proof {
            lemma_without_is_kept(old(self)@, positions@);
        }
    }

    /// Writes the line that shows the task at position `task`.
    pub fn print_task(&self, task: usize, console: &mut Console)
        requires
            task < self@.len(),
        ensures
            final(console)@ == old(console)@.push(task_line(self@, task as int)),
    {
        assert(task < self.tasks.len());
        let mut line = decimal_string(task + 1);
        line.append(" ");
        line.append(self.tasks[task].label().as_str());
        console.emit(line);
    }

    /// Writes the listing of the active tasks.
    pub fn status(&self, console: &mut Console)
        ensures
            final(console)@ == old(console)@ + status_lines(self@),
    {
        console.emit("Tasks:".to_owned());
        let ghost test = selection_test(self@, SelectorView::All, DoneHandling::Hide);
        proof {
            lemma_filter_positions(0, test);
        }
        assert(console@ =~= old(console)@ + (seq!["Tasks:"@] + task_lines(
            self@,
            positions(0).filter(test),
        )));
        let mut num: usize = 0;
        while num < self.tasks.len()
            invariant
                num <= self.tasks.len(),
                test == selection_test(self@, SelectorView::All, DoneHandling::Hide),
                console@ == old(console)@ + (seq!["Tasks:"@] + task_lines(
                    self@,
                    positions(num as nat).filter(test),
                )),
            decreases self.tasks.len() - num,
        {
            proof {
                lemma_filter_positions_step(num as nat, test);
            }
            if self.tasks[num].is_active() {
                self.print_task(num, console);
                assert(console@ =~= old(console)@ + (seq!["Tasks:"@] + task_lines(
                    self@,
                    positions((num + 1) as nat).filter(test),
                )));
            }
            num = num + 1;
        }
    }
}

} // verus!
