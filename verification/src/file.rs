//! The task file: comma-separated rows of text, creation time and
//! completion time, read and written by the `csv` crate.

use crate::lifecycle::all_writable;
use crate::store::Tasks;
use crate::task::{Task, TaskView};
use crate::time::Timestamp;
use vstd::prelude::*;

verus! {

/// What went wrong with the task file.
#[derive(Clone, Copy, Debug, PartialEq, Eq, Structural)]
pub enum TaskFileError {
    /// The file could not be opened.
    NotFound,
    /// A row has fewer than three columns.
    MissingColumn,
    /// The creation time of a row is no timestamp.
    ParseColumn,
    /// A row could not be written.
    WriteColumn,
}

/// The error of the `csv` crate. Nothing inside it is looked at.
#[verifier::external_type_specification]
#[verifier::external_body]
pub struct ExCsvError(csv::Error);

/// What a `csv` reader that takes records of any length yields for `data`,
/// in order: the fields of each record, or `None` where it yields an error
/// in place of a record. The first record is the heading and is not among
/// them.
pub uninterp spec fn csv_records(data: Seq<u8>) -> Seq<Option<Seq<Seq<char>>>>;

/// The bytes that `csv` writes for a record of the given fields; `None`
/// where it fails to write one.
pub uninterp spec fn csv_record_bytes(fields: Seq<Seq<char>>) -> Option<Seq<u8>>;

/// `csv::Reader::records` on a reader made by `csv::ReaderBuilder` with
/// `flexible(true)`, so that a record shorter or longer than the heading is
/// yielded like any other; each record is turned into its fields. The
/// contract names what is read and claims nothing else about it.
#[verifier::external_body]
fn read_records(data: &[u8]) -> (records: Vec<Option<Vec<String>>>)
    ensures
        records.deep_view() == csv_records(data@),
{
    csv::ReaderBuilder::new()
        .flexible(true)
        .from_reader(data)
        .records()
        .map(|read| read.ok().map(|record| record.iter().map(String::from).collect()))
        .collect()
}

/// `csv::Writer::write_record` on a writer made by
/// `csv::Writer::from_writer`, followed by `csv::Writer::into_inner`. The
/// contract names the bytes that come out and claims nothing else about
/// them.
#[verifier::external_body]
fn write_record(fields: &Vec<String>) -> (r: Result<Vec<u8>, csv::Error>)
    ensures
        match r {
            Ok(bytes) => csv_record_bytes(fields.deep_view()) == Some(bytes@),
            Err(_) => csv_record_bytes(fields.deep_view()) is None,
        },
{
    let mut writer = csv::Writer::from_writer(Vec::new());
    writer.write_record(fields)?;
    writer.into_inner().map_err(|failed| csv::Error::from(failed.into_error()))
}

/// The columns of the heading.
pub open spec fn heading() -> Seq<Seq<char>> {
    seq!["text"@, "created"@, "completed"@]
}

/// The task that stands in a row with the given text, whose creation time
/// and completion time were read as given. A row without a creation time is
/// no task.
pub open spec fn columns_task(
    text: Seq<char>,
    created: Option<Timestamp>,
    completed: Option<Timestamp>,
) -> Result<TaskView, TaskFileError> {
    match created {
        None => Err(TaskFileError::ParseColumn),
        Some(created) => Ok(TaskView { text, created, completed }),
    }
}

/// The task that a record of the given fields stands for. The completion
/// time is absent where the third field is empty or no timestamp.
pub open spec fn row_task(fields: Seq<Seq<char>>) -> Result<TaskView, TaskFileError> {
    if fields.len() < 3 {
        Err(TaskFileError::MissingColumn)
    } else {
        columns_task(
            fields[0],
            Timestamp::from_text(fields[1]),
            if fields[2].len() == 0 {
                None
            } else {
                Timestamp::from_text(fields[2])
            },
        )
    }
}

/// What comes of loading: the tasks that were read, and what stopped the
/// reading, if anything did.
pub struct Loaded {
    pub tasks: Seq<TaskView>,
    pub error: Option<TaskFileError>,
}

/// What comes of loading `records`: the tasks of the records up to the
/// first that stands for no task. A record that could not be read is
/// passed over.
pub open spec fn loaded(records: Seq<Option<Seq<Seq<char>>>>) -> Loaded
    decreases records.len(),
{
    if records.len() == 0 {
        Loaded { tasks: Seq::empty(), error: None }
    } else {
        let before = loaded(records.drop_last());
        if before.error is Some {
            before
        } else {
            match records.last() {
                None => before,
                Some(fields) => match row_task(fields) {
                    Ok(task) => Loaded { tasks: before.tasks.push(task), error: None },
                    Err(error) => Loaded { tasks: before.tasks, error: Some(error) },
                },
            }
        }
    }
}

/// The fields of a row: the text, the creation time as text, and the
/// completion time as text, empty where there is none.
pub open spec fn row_fields(
    text: Seq<char>,
    created: Seq<char>,
    completed: Option<Seq<char>>,
) -> Seq<Seq<char>> {
    seq![
        text,
        created,
        match completed {
            Some(completed) => completed,
            None => Seq::empty(),
        },
    ]
}

/// The fields of the record that stands for `task`; `None` where one of
/// its timestamps has no text.
pub open spec fn task_row(task: TaskView) -> Option<Seq<Seq<char>>> {
    match (task.created.text(), task.completed) {
        (Some(created), None) => Some(row_fields(task.text, created, None)),
        (Some(created), Some(at)) => match at.text() {
            Some(completed) => Some(row_fields(task.text, created, Some(completed))),
            None => None,
        },
        (None, _) => None,
    }
}

/// The bytes of the record that stands for `task`.
pub open spec fn task_bytes(task: TaskView) -> Option<Seq<u8>> {
    match task_row(task) {
        Some(fields) => csv_record_bytes(fields),
        None => None,
    }
}

/// The bytes of the file that holds `tasks`: the heading, then one record
/// for each task, in order; `None` where one of them cannot be written.
pub open spec fn saved(tasks: Seq<TaskView>) -> Option<Seq<u8>>
    decreases tasks.len(),
{
    if tasks.len() == 0 {
        csv_record_bytes(heading())
    } else {
        match (saved(tasks.drop_last()), task_bytes(tasks.last())) {
            (Some(before), Some(record)) => Some(before + record),
            _ => None,
        }
    }
}

/// Once the reading has stopped, further records change nothing.
pub proof fn lemma_loaded_stops(records: Seq<Option<Seq<Seq<char>>>>, n: int)
    requires
        0 <= n <= records.len(),
        loaded(records.take(n)).error is Some,
    ensures
        loaded(records) == loaded(records.take(n)),
    decreases records.len() - n,
{
    if n == records.len() {
        assert(records.take(n) == records);
    } else {
        assert(records.take(n + 1).drop_last() == records.take(n));
        lemma_loaded_stops(records, n + 1);
    }
}

/// Once a task cannot be written, the file cannot be written.
pub proof fn lemma_saved_fails(tasks: Seq<TaskView>, n: int)
    requires
        0 <= n <= tasks.len(),
        saved(tasks.take(n)) is None,
    ensures
        saved(tasks) is None,
    decreases tasks.len() - n,
{
    if n == tasks.len() {
        assert(tasks.take(n) == tasks);
    } else {
        assert(tasks.take(n + 1).drop_last() == tasks.take(n));
        lemma_saved_fails(tasks, n + 1);
    }
}

impl TaskFileError {
    /// What to tell the user.
    pub fn message(&self) -> (r: &'static str)
        ensures
            r@ == match self {
                TaskFileError::NotFound => "Task file not found"@,
                TaskFileError::MissingColumn => "Task file missing column"@,
                TaskFileError::ParseColumn => "Failed to parse task"@,
                TaskFileError::WriteColumn => "Failed to write task"@,
            },
    {
        match self {
            TaskFileError::NotFound => "Task file not found",
            TaskFileError::MissingColumn => "Task file missing column",
            TaskFileError::ParseColumn => "Failed to parse task",
            TaskFileError::WriteColumn => "Failed to write task",
        }
    }
}

/// The task that stands in a row with the given text, whose creation time
/// and completion time were read as given.
pub fn task_from_columns(
    text: String,
    created: Option<Timestamp>,
    completed: Option<Timestamp>,
) -> (r: Result<Task, TaskFileError>)
    ensures
        match r {
            Ok(task) => columns_task(text@, created, completed) == Ok::<TaskView, TaskFileError>(
                task@,
            ),
            Err(error) => columns_task(text@, created, completed) == Err::<
                TaskView,
                TaskFileError,
            >(error),
        },
{
    match created {
        Some(created) => Ok(Task { text, created, completed }),
        None => Err(TaskFileError::ParseColumn),
    }
}

/// The task that a record of the given fields stands for. A task that was
/// read can be written again.
pub fn task_from_row(fields: &Vec<String>) -> (r: Result<Task, TaskFileError>)
    ensures
        match r {
            Ok(task) => row_task(fields.deep_view()) == Ok::<TaskView, TaskFileError>(task@),
            Err(error) => row_task(fields.deep_view()) == Err::<TaskView, TaskFileError>(error),
        },
        r matches Ok(task) ==> task@.is_writable(),
{
    if fields.len() < 3 {
        return Err(TaskFileError::MissingColumn);
    }
    assert(fields.deep_view()[0] == fields[0]@);
    assert(fields.deep_view()[1] == fields[1]@);
    assert(fields.deep_view()[2] == fields[2]@);
    let created = Timestamp::parse(fields[1].as_str());
    let completed = if fields[2].as_str().is_empty() {
        None
    } else {
        Timestamp::parse(fields[2].as_str())
    };
    task_from_columns(fields[0].clone(), created, completed)
}

/// The fields of a row: the text, the creation time as text, and the
/// completion time as text, empty where there is none.
pub fn row_from_columns(text: String, created: String, completed: Option<String>) -> (fields: Vec<
    String,
>)
    ensures
        fields.deep_view() == row_fields(
            text@,
            created@,
            match completed {
                Some(completed) => Some(completed@),
                None => None,
            },
        ),
{
    let last = match completed {
        Some(completed) => completed,
        None => String::new(),
    };
    let mut fields: Vec<String> = Vec::new();
    fields.push(text);
    fields.push(created);
    fields.push(last);
    assert(fields.deep_view() =~= seq![fields[0]@, fields[1]@, fields[2]@]);
    fields
}

/// The fields of the record that stands for `task`; `None` where one of
/// its timestamps cannot be written.
pub fn row_from_task(task: &Task) -> (r: Option<Vec<String>>)
    ensures
        match r {
            Some(fields) => task_row(task@) == Some(fields.deep_view()),
            None => task_row(task@) is None,
        },
{
    let created = match task.created.format() {
        Some(created) => created,
        None => {
            return None;
        },
    };
    let completed = match task.completed {
        None => None,
        Some(at) => match at.format() {
            Some(completed) => Some(completed),
            None => {
                return None;
            },
        },
    };
    Some(row_from_columns(task.text.clone(), created, completed))
}

impl Tasks {
    /// Adds the tasks that `records` stand for, in order. A record that is
    /// `None` is passed over. The reading stops at the first record that
    /// stands for no task; the tasks before it stay. Every task that was
    /// added can be written again.
    pub fn load_records(&mut self, records: &Vec<Option<Vec<String>>>) -> (r: Result<
        (),
        TaskFileError,
    >)
        ensures
            final(self)@ == old(self)@ + loaded(records.deep_view()).tasks,
            match loaded(records.deep_view()).error {
                None => r is Ok,
                Some(error) => r == Err::<(), TaskFileError>(error),
            },
            all_writable(old(self)@) ==> all_writable(final(self)@),
    {
        let ghost all = records.deep_view();
        let mut i: usize = 0;
        assert(self@ =~= old(self)@ + loaded(all.take(0)).tasks);
        while i < records.len()
            invariant
                i <= records.len(),
                all == records.deep_view(),
                loaded(all.take(i as int)).error is None,
                self@ == old(self)@ + loaded(all.take(i as int)).tasks,
                all_writable(old(self)@) ==> all_writable(self@),
            decreases records.len() - i,
        {
            proof {
                assert(all.take(i + 1).drop_last() == all.take(i as int));
                assert(all.take(i + 1).last() == records[i as int].deep_view());
            }
            match &records[i] {
                None => {},
                Some(fields) => {
                    assert(all.take(i + 1).last() == Some(fields.deep_view()));
                    match task_from_row(fields) {
                        Ok(task) => {
                            let ghost before = self@;
                            let ghost read = loaded(all.take(i as int)).tasks;
                            self.tasks.push(task);
                            assert(self@ =~= before.push(task@));
                            assert(loaded(all.take(i + 1)).tasks == read.push(task@));
                            assert(before.push(task@) =~= old(self)@ + read.push(task@));
                            assert(all_writable(before) ==> all_writable(before.push(task@)));
                        },
                        Err(error) => {
                            proof {
                                lemma_loaded_stops(all, i + 1);
                            }
                            return Err(error);
                        },
                    }
                },
            }
            i = i + 1;
        }
        assert(all.take(i as int) == all);
        Ok(())
    }

    /// Adds the tasks of the task file, of which `file` holds the bytes, or
    /// `None` if it could not be opened. The reading stops at the first
    /// record that stands for no task; the tasks before it stay. Every task
    /// that was added can be written again.
    pub fn load(&mut self, file: Option<&[u8]>) -> (r: Result<(), TaskFileError>)
        ensures
            all_writable(old(self)@) ==> all_writable(final(self)@),
            match file {
                None => r == Err::<(), TaskFileError>(TaskFileError::NotFound) && *final(self)
                    == *old(self),
                Some(data) => {
                    &&& final(self)@ == old(self)@ + loaded(csv_records(data@)).tasks
                    &&& match loaded(csv_records(data@)).error {
                        None => r is Ok,
                        Some(error) => r == Err::<(), TaskFileError>(error),
                    }
                },
            },
    {
        match file {
            Some(data) => self.load_records(&read_records(data)),
            None => Err(TaskFileError::NotFound),
        }
    }

    /// The bytes of the task file that holds these tasks. `writable` says
    /// whether the file could be opened for writing.
    pub fn save(self, writable: bool) -> (r: Result<Vec<u8>, TaskFileError>)
        ensures
            match r {
                Ok(bytes) => writable && saved(self@) == Some(bytes@),
                Err(error) => if writable {
                    error == TaskFileError::WriteColumn && saved(self@) is None
                } else {
                    error == TaskFileError::NotFound
                },
            },
    {
        if !writable {
            return Err(TaskFileError::NotFound);
        }
        let mut columns: Vec<String> = Vec::new();
        columns.push("text".to_owned());
        columns.push("created".to_owned());
        columns.push("completed".to_owned());
        assert(columns.deep_view() =~= heading());
        assert(self@.take(0) =~= Seq::<TaskView>::empty());
        let mut bytes = match write_record(&columns) {
            Ok(bytes) => bytes,
            Err(_) => {
                proof {
                    lemma_saved_fails(self@, 0);
                }
                return Err(TaskFileError::WriteColumn);
            },
        };
        let mut i: usize = 0;
        while i < self.tasks.len()
            invariant
                i <= self.tasks.len(),
                writable,
                saved(self@.take(i as int)) == Some(bytes@),
            decreases self.tasks.len() - i,
        {
            proof {
                assert(self@.take(i + 1).drop_last() == self@.take(i as int));
                assert(self@.take(i + 1).last() == self.tasks[i as int]@);
            }
            let written = match row_from_task(&self.tasks[i]) {
                Some(fields) => write_record(&fields),
                None => {
                    proof {
                        lemma_saved_fails(self@, i + 1);
                    }
                    return Err(TaskFileError::WriteColumn);
                },
            };
            match written {
                Ok(mut record) => {
                    bytes.append(&mut record);
                },
                Err(_) => {
                    proof {
                        lemma_saved_fails(self@, i + 1);
                    }
                    return Err(TaskFileError::WriteColumn);
                },
            }
            i = i + 1;
        }
        assert(self@.take(i as int) == self@);
        Ok(bytes)
    }
}

/// Whether the timestamp has a text, and that text is read as the same
/// timestamp.
pub open spec fn reads_back(timestamp: Timestamp) -> bool {
    match timestamp.text() {
        Some(text) => text.len() > 0 && Timestamp::from_text(text) == Some(timestamp),
        None => false,
    }
}

/// Whether both timestamps of the task read back.
pub open spec fn task_reads_back(task: TaskView) -> bool {
    &&& reads_back(task.created)
    &&& task.completed matches Some(at) ==> reads_back(at)
}

/// Whether every task reads back.
pub open spec fn all_read_back(tasks: Seq<TaskView>) -> bool {
    forall|i: int| 0 <= i < tasks.len() ==> task_reads_back(#[trigger] tasks[i])
}

/// The records that stand for `tasks`, as they are written.
pub open spec fn task_rows(tasks: Seq<TaskView>) -> Seq<Option<Seq<Seq<char>>>> {
    tasks.map_values(|task: TaskView| task_row(task))
}

/// Reading the records that stand for tasks gives the tasks back, in the
/// same order and without error, where every timestamp reads back from its
/// text.
pub proof fn lemma_rows_read_back(tasks: Seq<TaskView>)
    ensures
        all_read_back(tasks) ==> loaded(task_rows(tasks)) == (Loaded { tasks, error: None }),
    decreases tasks.len(),
{
    if all_read_back(tasks) {
        if tasks.len() == 0 {
            assert(loaded(task_rows(tasks)).tasks =~= tasks);
        } else {
            let front = tasks.drop_last();
            let task = tasks.last();
            assert(all_read_back(front)) by {
                assert forall|i: int| 0 <= i < front.len() implies task_reads_back(
                    #[trigger] front[i],
                ) by {
                    assert(front[i] == tasks[i]);
                }
            }
            lemma_rows_read_back(front);
            assert(task_rows(tasks).drop_last() =~= task_rows(front));
            assert(task_rows(tasks).last() == task_row(task));
            assert(task_reads_back(task));
            assert(front.push(task) =~= tasks);
        }
    }
}

/// Loading a file that was saved gives the saved tasks back, in the same
/// order and without error, where the records that were written are the
/// records that are read from the bytes, and every timestamp reads back from
/// its text.
pub proof fn lemma_save_then_load(tasks: Seq<TaskView>, bytes: Seq<u8>)
    ensures
        saved(tasks) == Some(bytes) && csv_records(bytes) == task_rows(tasks) && all_read_back(
            tasks,
        ) ==> loaded(csv_records(bytes)) == (Loaded { tasks, error: None }),
{
    lemma_rows_read_back(tasks);
}

/// A file can be written exactly where its heading and the record of each
/// task can be written.
pub proof fn lemma_saved_where_written(tasks: Seq<TaskView>)
    ensures
        saved(tasks) is Some <==> csv_record_bytes(heading()) is Some && forall|i: int|
            0 <= i < tasks.len() ==> task_bytes(#[trigger] tasks[i]) is Some,
    decreases tasks.len(),
{
    if tasks.len() > 0 {
        let front = tasks.drop_last();
        lemma_saved_where_written(front);
        assert forall|i: int| 0 <= i < front.len() implies front[i] == tasks[i] by {}
        if saved(tasks) is Some {
            assert forall|i: int| 0 <= i < tasks.len() implies task_bytes(
                #[trigger] tasks[i],
            ) is Some by {
                if i < front.len() {
                    assert(front[i] == tasks[i]);
                }
            }
        }
        if csv_record_bytes(heading()) is Some && forall|i: int|
            0 <= i < tasks.len() ==> task_bytes(#[trigger] tasks[i]) is Some {
            assert forall|i: int| 0 <= i < front.len() implies task_bytes(
                #[trigger] front[i],
            ) is Some by {
                assert(front[i] == tasks[i]);
            }
            assert(task_bytes(tasks[tasks.len() - 1]) is Some);
        }
    }
}

/// A task that can be written has a row, and a task that has a row can be
/// written.
pub proof fn lemma_writable_has_row(task: TaskView)
    ensures
        task.is_writable() <==> task_row(task) is Some,
{
}

} // verus!
