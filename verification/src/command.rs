//! The commands of the to-do list: what the words after the program's name
//! ask for, and what comes of it.

use crate::console::Console;
use crate::lifecycle::{completed_all, promoted};
use crate::selection::{selected, DoneHandling};
use crate::selector::{
    selector_of, try_selector_from_string, EmptyBehaviour, Selector, SelectorError,
    SelectorView,
};
use crate::store::{
    completed_notices, created_notice, status_lines, task_lines, working_notice, Tasks,
};
use crate::task::{Task, TaskView};
use crate::text::{join, joined, pieces, split};
use crate::time::Timestamp;
use vstd::prelude::*;

verus! {

/// What the user asks for.
#[derive(Clone, Debug, PartialEq, Eq)]
pub enum Command {
    /// List the active tasks.
    Status,
    /// Complete the active tasks that the expression picks.
    Done { expression: String },
    /// Begin work on the first active task that the expression picks.
    Do { expression: String },
    /// Show the tasks that the expression picks, completed ones too.
    Show { expression: String },
    /// Write down new tasks with these texts.
    Create { texts: Vec<String> },
}

/// A command as the contracts see it.
pub enum CommandView {
    Status,
    Done { expression: Seq<char> },
    Do { expression: Seq<char> },
    Show { expression: Seq<char> },
    Create { texts: Seq<Seq<char>> },
}

impl View for Command {
    type V = CommandView;

    open spec fn view(&self) -> CommandView {
        match self {
            Command::Status => CommandView::Status,
            Command::Done { expression } => CommandView::Done { expression: expression@ },
            Command::Do { expression } => CommandView::Do { expression: expression@ },
            Command::Show { expression } => CommandView::Show { expression: expression@ },
            Command::Create { texts } => CommandView::Create { texts: texts.deep_view() },
        }
    }
}

/// The command that the words stand for. After `done`, `do` and `show` the
/// other words, with a blank between each two, are the expression. Any
/// other first word begins the texts of new tasks: all words, with a blank
/// between each two, cut at each comma.
pub open spec fn command_of(args: Seq<Seq<char>>) -> CommandView {
    if args.len() == 0 {
        CommandView::Status
    } else if args[0] == "done"@ {
        CommandView::Done { expression: joined(args.skip(1), " "@) }
    } else if args[0] == "do"@ {
        CommandView::Do { expression: joined(args.skip(1), " "@) }
    } else if args[0] == "show"@ {
        CommandView::Show { expression: joined(args.skip(1), " "@) }
    } else {
        CommandView::Create { texts: pieces(joined(args, " "@), ',') }
    }
}

/// The tasks and the lines that a command leaves behind.
pub struct Outcome {
    pub tasks: Seq<TaskView>,
    pub lines: Seq<Seq<char>>,
}

/// A new task with the given text, created at `at`.
pub open spec fn new_task(text: Seq<char>, at: Timestamp) -> TaskView {
    TaskView { text, created: at, completed: None }
}

/// The new tasks with the given texts, in the order of the texts.
pub open spec fn new_tasks(texts: Seq<Seq<char>>, at: Timestamp) -> Seq<TaskView> {
    texts.map_values(|text: Seq<char>| new_task(text, at))
}

/// What comes of listing the active tasks.
pub open spec fn after_status(tasks: Seq<TaskView>) -> Outcome {
    Outcome { tasks, lines: status_lines(tasks) }
}

/// What comes of completing at `at` the active tasks that `selector` picks:
/// they are completed and moved to the end, each is reported, and the
/// active tasks that are left are listed.
pub open spec fn after_done(
    tasks: Seq<TaskView>,
    selector: SelectorView,
    at: Timestamp,
) -> Outcome {
    let found = selected(tasks, selector, DoneHandling::Hide);
    let left = completed_all(tasks, found, at);
    Outcome { tasks: left, lines: completed_notices(tasks, found) + status_lines(left) }
}

/// What comes of beginning work on the first active task that `selector`
/// picks: it is moved to the front and reported. Where no active task is
/// picked, that is reported and nothing changes.
pub open spec fn after_do(tasks: Seq<TaskView>, selector: SelectorView) -> Outcome {
    let found = selected(tasks, selector, DoneHandling::Hide);
    if found.len() == 0 {
        Outcome { tasks, lines: seq!["Task not found"@] }
    } else {
        Outcome {
            tasks: promoted(tasks, found[0] as int),
            lines: seq![working_notice(tasks[found[0] as int])],
        }
    }
}

/// What comes of showing the tasks that `selector` picks, completed ones
/// too.
pub open spec fn after_show(tasks: Seq<TaskView>, selector: SelectorView) -> Outcome {
    Outcome { tasks, lines: task_lines(tasks, selected(tasks, selector, DoneHandling::Show)) }
}

/// What comes of writing down tasks with the given texts at `at`: each is
/// put at the front in turn, so the last text ends up first; each is
/// reported, and the active tasks are listed.
pub open spec fn after_create(
    tasks: Seq<TaskView>,
    texts: Seq<Seq<char>>,
    at: Timestamp,
) -> Outcome {
    let all = new_tasks(texts, at).reverse() + tasks;
    Outcome {
        tasks: all,
        lines: new_tasks(texts, at).map_values(|task: TaskView| created_notice(task))
            + status_lines(all),
    }
}

/// What comes of a command at the time `at`, or why it cannot be carried
/// out.
pub open spec fn outcome(tasks: Seq<TaskView>, command: CommandView, at: Timestamp) -> Result<
    Outcome,
    SelectorError,
> {
    match command {
        CommandView::Status => Ok(after_status(tasks)),
        CommandView::Done { expression } => {
            let selector = selector_of(expression, EmptyBehaviour::SelectLast);
            if selector.is_usable() {
                Ok(after_done(tasks, selector, at))
            } else {
                Err(SelectorError::InvalidPattern)
            }
        },
        CommandView::Do { expression } => {
            let selector = selector_of(expression, EmptyBehaviour::SelectLast);
            if selector.is_usable() {
                Ok(after_do(tasks, selector))
            } else {
                Err(SelectorError::InvalidPattern)
            }
        },
        CommandView::Show { expression } => {
            let selector = selector_of(expression, EmptyBehaviour::SelectAll);
            if selector.is_usable() {
                Ok(after_show(tasks, selector))
            } else {
                Err(SelectorError::InvalidPattern)
            }
        },
        CommandView::Create { texts } => Ok(after_create(tasks, texts, at)),
    }
}

impl Command {
    /// Reads the words after the program's name.
    pub fn parse(args: &Vec<String>) -> (command: Command)
        ensures
            command@ == command_of(args.deep_view()),
    {
        if args.len() == 0 {
            return Command::Status;
        }
        assert(args.deep_view()[0] == args[0]@);
        assert(args.deep_view().skip(0) == args.deep_view());
        if args[0] == "done".to_owned() {
            Command::Done { expression: join(args, 1, " ") }
        } else if args[0] == "do".to_owned() {
            Command::Do { expression: join(args, 1, " ") }
        } else if args[0] == "show".to_owned() {
            Command::Show { expression: join(args, 1, " ") }
        } else {
            Command::Create { texts: split(join(args, 0, " ").as_str(), ',') }
        }
    }
}

impl Tasks {
    /// Completes at `at` the active tasks that `selector` picks, and lists
    /// the active tasks that are left.
    pub fn done(&mut self, selector: &Selector, at: Timestamp, console: &mut Console)
        requires
            selector@.is_usable(),
        ensures
            final(self)@ == after_done(old(self)@, selector@, at).tasks,
            final(console)@ == old(console)@ + after_done(old(self)@, selector@, at).lines,
    {
        let found = self.select(selector, DoneHandling::Hide);
        self.complete_all(&found, at, console);
        self.status(console);
        assert(console@ =~= old(console)@ + after_done(old(self)@, selector@, at).lines);
    }

    /// Begins work on the first active task that `selector` picks, or says
    /// that there is none.
    pub fn start(&mut self, selector: &Selector, console: &mut Console)
        requires
            selector@.is_usable(),
        ensures
            final(self)@ == after_do(old(self)@, selector@).tasks,
            final(console)@ == old(console)@ + after_do(old(self)@, selector@).lines,
    {
        let found = self.select(selector, DoneHandling::Hide);
        if found.len() == 0 {
            console.emit("Task not found".to_owned());
        } else {
            let moved = self.work_on(found[0], console);
            assert(moved is Ok);
        }
        assert(console@ =~= old(console)@ + after_do(old(self)@, selector@).lines);
    }

    /// Shows the tasks that `selector` picks, completed ones too.
    pub fn show(&self, selector: &Selector, console: &mut Console)
        requires
            selector@.is_usable(),
        ensures
            final(console)@ == old(console)@ + after_show(self@, selector@).lines,
    {
        let found = self.select(selector, DoneHandling::Show);
        let mut i: usize = 0;
        assert(console@ =~= old(console)@ + task_lines(self@, found@.take(0)));
        while i < found.len()
            invariant
                i <= found.len(),
                found@ == selected(self@, selector@, DoneHandling::Show),
                forall|k: int| 0 <= k < found.len() ==> #[trigger] found[k] < self@.len(),
                console@ == old(console)@ + task_lines(self@, found@.take(i as int)),
            decreases found.len() - i,
        {
            self.print_task(found[i], console);
            assert(console@ =~= old(console)@ + task_lines(self@, found@.take(i + 1)));
            i = i + 1;
        }
        assert(found@.take(i as int) == found@);
    }

    /// Writes down a task for each of the texts, created at `at`, and lists
    /// the active tasks.
    pub fn add(&mut self, texts: &Vec<String>, at: Timestamp, console: &mut Console)
        ensures
            final(self)@ == after_create(old(self)@, texts.deep_view(), at).tasks,
            final(console)@ == old(console)@ + after_create(
                old(self)@,
                texts.deep_view(),
                at,
            ).lines,
    {
        let ghost all = texts.deep_view();
        let mut i: usize = 0;
        assert(self@ =~= new_tasks(all.take(0), at).reverse() + old(self)@);
        assert(console@ =~= old(console)@ + new_tasks(all.take(0), at).map_values(
            |task: TaskView| created_notice(task),
        ));
        while i < texts.len()
            invariant
                i <= texts.len(),
                all == texts.deep_view(),
                self@ == new_tasks(all.take(i as int), at).reverse() + old(self)@,
                console@ == old(console)@ + new_tasks(all.take(i as int), at).map_values(
                    |task: TaskView| created_notice(task),
                ),
            decreases texts.len() - i,
        {
            let task = Task::new(texts[i].clone(), at);
            assert(task@ == new_task(all[i as int], at));
            self.create(task, console);
            assert(self@ =~= new_tasks(all.take(i + 1), at).reverse() + old(self)@);
            assert(console@ =~= old(console)@ + new_tasks(all.take(i + 1), at).map_values(
                |task: TaskView| created_notice(task),
            ));
            i = i + 1;
        }
        assert(all.take(i as int) == all);
        self.status(console);
        assert(console@ =~= old(console)@ + after_create(old(self)@, all, at).lines);
    }

    /// Carries out `command` at the time `at`. Where the command holds an
    /// expression that cannot be used, nothing happens.
    pub fn execute(
        &mut self,
        command: &Command,
        at: Timestamp,
        console: &mut Console,
    ) -> (r: Result<(), SelectorError>)
        ensures
            match outcome(old(self)@, command@, at) {
                Ok(after) => {
                    &&& r is Ok
                    &&& final(self)@ == after.tasks
                    &&& final(console)@ == old(console)@ + after.lines
                },
                Err(error) => {
                    &&& r == Err::<(), SelectorError>(error)
                    &&& *final(self) == *old(self)
                    &&& *final(console) == *old(console)
                },
            },
    {
        match command {
            Command::Status => {
                self.status(console);
            },
            Command::Done { expression } => {
                let selector = try_selector_from_string(
                    expression.as_str(),
                    EmptyBehaviour::SelectLast,
                )?;
                self.done(&selector, at, console);
            },
            Command::Do { expression } => {
                let selector = try_selector_from_string(
                    expression.as_str(),
                    EmptyBehaviour::SelectLast,
                )?;
                self.start(&selector, console);
            },
            Command::Show { expression } => {
                let selector = try_selector_from_string(
                    expression.as_str(),
                    EmptyBehaviour::SelectAll,
                )?;
                self.show(&selector, console);
            },
            Command::Create { texts } => {
                self.add(texts, at, console);
            },
        }
        Ok(())
    }
}

/// Carries out at the time `at` what the words `args` ask for.
pub fn run_at(tasks: &mut Tasks, args: &Vec<String>, at: Timestamp, console: &mut Console) -> (r:
    Result<(), SelectorError>)
    ensures
        match outcome(old(tasks)@, command_of(args.deep_view()), at) {
            Ok(after) => {
                &&& r is Ok
                &&& final(tasks)@ == after.tasks
                &&& final(console)@ == old(console)@ + after.lines
            },
            Err(error) => {
                &&& r == Err::<(), SelectorError>(error)
                &&& *final(tasks) == *old(tasks)
                &&& *final(console) == *old(console)
            },
        },
{
    let command = Command::parse(args);
    tasks.execute(&command, at, console)
}

/// Carries out what the words `args` ask for, at the time that the clock
/// gives: a time that can be written.
pub fn run(tasks: &mut Tasks, args: &Vec<String>, console: &mut Console) -> (r: Result<
    (),
    SelectorError,
>)
    ensures
        exists|at: Timestamp|
            {
                &&& at.is_in_range()
                &&& at.text() is Some
                &&& match #[trigger] outcome(old(tasks)@, command_of(args.deep_view()), at) {
                    Ok(after) => {
                        &&& r is Ok
                        &&& final(tasks)@ == after.tasks
                        &&& final(console)@ == old(console)@ + after.lines
                    },
                    Err(error) => {
                        &&& r == Err::<(), SelectorError>(error)
                        &&& *final(tasks) == *old(tasks)
                        &&& *final(console) == *old(console)
                    },
                }
            },
{
    run_at(tasks, args, Timestamp::now(), console)
}

} // verus!
