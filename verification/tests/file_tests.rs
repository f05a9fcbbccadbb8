use td_todo::file::{
    row_from_columns, row_from_task, task_from_columns, task_from_row, TaskFileError,
};
use td_todo::store::Tasks;
use td_todo::task::Task;
use td_todo::time::Timestamp;

fn at(secs: i64) -> Timestamp {
    Timestamp { secs, nanos: 0, offset: 0 }
}

fn load(data: &str) -> (Tasks, Result<(), TaskFileError>) {
    let mut tasks = Tasks::new();
    let result = tasks.load(Some(data.as_bytes()));
    (tasks, result)
}

fn sample_store() -> Tasks {
    Tasks {
        tasks: vec![
            Task::new("Buy milk".to_string(), at(1705311000)),
            Task {
                text: "Write report".to_string(),
                created: at(1704873600),
                completed: Some(at(1705081500)),
            },
        ],
    }
}

const SAMPLE: &str = "text,created,completed\n\
Buy milk,2024-01-15T09:30:00+00:00,\n\
Write report,2024-01-10T08:00:00+00:00,2024-01-12T17:45:00+00:00\n";

#[test]
fn load_reads_the_rows_in_order() {
    let (tasks, result) = load(SAMPLE);
    assert_eq!(result, Ok(()));
    assert_eq!(tasks, sample_store());
}

#[test]
fn load_without_a_file_fails() {
    let mut tasks = sample_store();
    assert_eq!(tasks.load(None), Err(TaskFileError::NotFound));
    assert_eq!(tasks, sample_store());
}

#[test]
fn load_of_an_empty_file_reads_nothing() {
    let (tasks, result) = load("");
    assert_eq!(result, Ok(()));
    assert_eq!(tasks.len(), 0);
    let (tasks, result) = load("text,created,completed\n");
    assert_eq!(result, Ok(()));
    assert_eq!(tasks.len(), 0);
}

#[test]
fn load_passes_over_the_first_row() {
    let (tasks, result) = load("Buy milk,2024-01-15T09:30:00+00:00,\n");
    assert_eq!(result, Ok(()));
    assert_eq!(tasks.len(), 0);
}

#[test]
fn load_adds_to_the_tasks_that_are_there() {
    let mut tasks = Tasks { tasks: vec![Task::new("first".to_string(), at(1))] };
    assert_eq!(tasks.load(Some(SAMPLE.as_bytes())), Ok(()));
    assert_eq!(tasks.len(), 3);
    assert_eq!(tasks.tasks[0].text, "first");
    assert_eq!(tasks.tasks[1].text, "Buy milk");
    assert_eq!(tasks.tasks[2].text, "Write report");
}

#[test]
fn load_fails_on_a_missing_column() {
    let (tasks, result) = load("text,created\nBuy milk,2024-01-15T09:30:00+00:00\n");
    assert_eq!(result, Err(TaskFileError::MissingColumn));
    assert_eq!(tasks.len(), 0);
    let (_, result) = load("text\nBuy milk\n");
    assert_eq!(result, Err(TaskFileError::MissingColumn));
}

#[test]
fn load_fails_on_a_creation_time_that_is_none() {
    let (tasks, result) = load("text,created,completed\nBuy milk,yesterday,\n");
    assert_eq!(result, Err(TaskFileError::ParseColumn));
    assert_eq!(tasks.len(), 0);
    let (_, result) = load("text,created,completed\nBuy milk,,2024-01-15T09:30:00+00:00\n");
    assert_eq!(result, Err(TaskFileError::ParseColumn));
}

#[test]
fn load_keeps_the_tasks_before_the_failure() {
    let (tasks, result) = load(
        "text,created,completed\n\
         Buy milk,2024-01-15T09:30:00+00:00,\n\
         Broken,not a time,\n\
         Write report,2024-01-10T08:00:00+00:00,\n",
    );
    assert_eq!(result, Err(TaskFileError::ParseColumn));
    assert_eq!(tasks, Tasks { tasks: vec![Task::new("Buy milk".to_string(), at(1705311000))] });
}

#[test]
fn load_takes_a_broken_completion_time_as_absent() {
    let (tasks, result) = load("text,created,completed\nBuy milk,2024-01-15T09:30:00+00:00,soon\n");
    assert_eq!(result, Ok(()));
    assert_eq!(tasks, Tasks { tasks: vec![Task::new("Buy milk".to_string(), at(1705311000))] });
}

#[test]
fn load_fails_on_a_row_shorter_than_the_heading() {
    let (tasks, result) = load("text,created,completed\nBuy milk,2024-01-15T09:30:00+00:00\n");
    assert_eq!(result, Err(TaskFileError::MissingColumn));
    assert_eq!(tasks.len(), 0);
}

#[test]
fn load_keeps_the_tasks_before_a_short_row() {
    let (tasks, result) = load(
        "text,created,completed\n\
         Buy milk,2024-01-15T09:30:00+00:00,\n\
         few\n\
         Write report,2024-01-10T08:00:00+00:00,2024-01-12T17:45:00+00:00\n",
    );
    assert_eq!(result, Err(TaskFileError::MissingColumn));
    assert_eq!(tasks, Tasks { tasks: vec![Task::new("Buy milk".to_string(), at(1705311000))] });
}

#[test]
fn load_reads_a_row_longer_than_the_heading() {
    let (tasks, result) = load(
        "text,created,completed\n\
         Buy milk,2024-01-15T09:30:00+00:00,,and,more\n\
         Write report,2024-01-10T08:00:00+00:00,2024-01-12T17:45:00+00:00\n",
    );
    assert_eq!(result, Ok(()));
    assert_eq!(tasks, sample_store());
}

#[test]
fn load_fails_on_a_long_row_without_a_creation_time() {
    let (tasks, result) = load(
        "text,created,completed\n\
         Buy milk,2024-01-15T09:30:00+00:00,\n\
         too,many,columns,here\n",
    );
    assert_eq!(result, Err(TaskFileError::ParseColumn));
    assert_eq!(tasks.len(), 1);
}

#[test]
fn load_passes_over_empty_lines() {
    let (tasks, result) = load(
        "text,created,completed\n\
         \n\
         Buy milk,2024-01-15T09:30:00+00:00,\n\
         \n\
         Write report,2024-01-10T08:00:00+00:00,2024-01-12T17:45:00+00:00\n",
    );
    assert_eq!(result, Ok(()));
    assert_eq!(tasks, sample_store());
}

#[test]
fn load_passes_over_rows_that_are_no_text() {
    let mut data = b"text,created,completed\n".to_vec();
    data.extend_from_slice(b"bad \xff\xfe,2024-01-15T09:30:00+00:00,\n");
    data.extend_from_slice(b"Buy milk,2024-01-15T09:30:00+00:00,\n");
    let mut tasks = Tasks::new();
    assert_eq!(tasks.load(Some(&data)), Ok(()));
    assert_eq!(tasks, Tasks { tasks: vec![Task::new("Buy milk".to_string(), at(1705311000))] });
}

#[test]
fn load_reads_more_than_three_columns_if_the_heading_has_them() {
    let (tasks, result) = load(
        "text,created,completed,note\n\
         Buy milk,2024-01-15T09:30:00+00:00,,whole\n",
    );
    assert_eq!(result, Ok(()));
    assert_eq!(tasks, Tasks { tasks: vec![Task::new("Buy milk".to_string(), at(1705311000))] });
}

#[test]
fn load_reads_quoted_text() {
    let (tasks, result) = load(
        "text,created,completed\n\
         \"Buy milk, eggs and \"\"good\"\" bread\",2024-01-15T09:30:00+00:00,\n",
    );
    assert_eq!(result, Ok(()));
    assert_eq!(tasks.tasks[0].text, "Buy milk, eggs and \"good\" bread");
}

#[test]
fn load_keeps_offset_and_fraction() {
    let (tasks, result) = load(
        "text,created,completed\n\
         Buy milk,2024-03-01T12:00:00+05:30,2024-01-15T09:30:00.250+02:00\n",
    );
    assert_eq!(result, Ok(()));
    assert_eq!(tasks.tasks[0].created, Timestamp { secs: 1709274600, nanos: 0, offset: 19800 });
    assert_eq!(
        tasks.tasks[0].completed,
        Some(Timestamp { secs: 1705303800, nanos: 250_000_000, offset: 7200 })
    );
}

#[test]
fn save_writes_heading_and_rows() {
    let bytes = sample_store().save(true).unwrap();
    assert_eq!(String::from_utf8(bytes).unwrap(), SAMPLE);
}

#[test]
fn save_of_an_empty_store_writes_the_heading() {
    let bytes = Tasks::new().save(true).unwrap();
    assert_eq!(String::from_utf8(bytes).unwrap(), "text,created,completed\n");
}

#[test]
fn save_quotes_text_that_needs_it() {
    let tasks =
        Tasks { tasks: vec![Task::new("Buy milk, \"good\" bread".to_string(), at(1705311000))] };
    let bytes = tasks.save(true).unwrap();
    assert_eq!(
        String::from_utf8(bytes).unwrap(),
        "text,created,completed\n\"Buy milk, \"\"good\"\" bread\",2024-01-15T09:30:00+00:00,\n"
    );
}

#[test]
fn save_without_a_file_fails() {
    assert_eq!(sample_store().save(false), Err(TaskFileError::NotFound));
    assert_eq!(Tasks::new().save(false), Err(TaskFileError::NotFound));
}

#[test]
fn save_fails_on_a_time_that_cannot_be_written() {
    let tasks = Tasks { tasks: vec![Task::new("Buy milk".to_string(), at(i64::MAX))] };
    assert_eq!(tasks.save(true), Err(TaskFileError::WriteColumn));
    let tasks = Tasks {
        tasks: vec![
            Task::new("Buy milk".to_string(), at(0)),
            Task {
                text: "Write report".to_string(),
                created: at(0),
                completed: Some(Timestamp { secs: 0, nanos: 0, offset: 100_000 }),
            },
        ],
    };
    assert_eq!(tasks.save(true), Err(TaskFileError::WriteColumn));
}

#[test]
fn load_reads_what_save_wrote() {
    let store = Tasks {
        tasks: vec![
            Task::new("plain".to_string(), at(1705311000)),
            Task::new("with, comma".to_string(), at(1705311001)),
            Task::new("with \"quotes\"".to_string(), at(1705311002)),
            Task::new("two\nlines".to_string(), at(1705311003)),
            Task::new("  blanks around  ".to_string(), at(1705311004)),
            Task::new("grüße".to_string(), at(1705311005)),
            Task {
                text: "done".to_string(),
                created: Timestamp { secs: 1705311000, nanos: 123_456_789, offset: -18000 },
                completed: Some(Timestamp { secs: 1705311999, nanos: 1_000, offset: 19800 }),
            },
        ],
    };
    let bytes = store.clone().save(true).unwrap();
    let mut read = Tasks::new();
    assert_eq!(read.load(Some(&bytes)), Ok(()));
    assert_eq!(read, store);
}

#[test]
fn save_writes_again_what_load_read() {
    let (tasks, result) = load(SAMPLE);
    assert_eq!(result, Ok(()));
    assert_eq!(String::from_utf8(tasks.save(true).unwrap()).unwrap(), SAMPLE);
}

#[test]
fn a_task_without_text_is_read_back() {
    let store = Tasks { tasks: vec![Task::new(String::new(), at(1705311000))] };
    let bytes = store.clone().save(true).unwrap();
    let mut read = Tasks::new();
    assert_eq!(read.load(Some(&bytes)), Ok(()));
    assert_eq!(read, store);
}

#[test]
fn task_file_error_has_messages() {
    assert_eq!(TaskFileError::NotFound.message(), "Task file not found");
    assert_eq!(TaskFileError::MissingColumn.message(), "Task file missing column");
    assert_eq!(TaskFileError::ParseColumn.message(), "Failed to parse task");
    assert_eq!(TaskFileError::WriteColumn.message(), "Failed to write task");
}

fn fields(words: &[&str]) -> Vec<String> {
    words.iter().map(|word| word.to_string()).collect()
}

#[test]
fn task_from_columns_needs_a_creation_time() {
    assert_eq!(
        task_from_columns("Buy milk".to_string(), Some(at(5)), None),
        Ok(Task::new("Buy milk".to_string(), at(5)))
    );
    assert_eq!(
        task_from_columns("Buy milk".to_string(), Some(at(5)), Some(at(9))),
        Ok(Task { text: "Buy milk".to_string(), created: at(5), completed: Some(at(9)) })
    );
    assert_eq!(
        task_from_columns("Buy milk".to_string(), None, Some(at(9))),
        Err(TaskFileError::ParseColumn)
    );
    assert_eq!(task_from_columns(String::new(), None, None), Err(TaskFileError::ParseColumn));
}

#[test]
fn task_from_row_reads_three_fields() {
    assert_eq!(
        task_from_row(&fields(&["Buy milk", "2024-01-15T09:30:00+00:00", ""])),
        Ok(Task::new("Buy milk".to_string(), at(1705311000)))
    );
    assert_eq!(
        task_from_row(&fields(&[
            "Write report",
            "2024-01-10T08:00:00+00:00",
            "2024-01-12T17:45:00+00:00",
            "more",
        ])),
        Ok(Task {
            text: "Write report".to_string(),
            created: at(1704873600),
            completed: Some(at(1705081500)),
        })
    );
}

#[test]
fn task_from_row_says_what_is_wrong() {
    assert_eq!(task_from_row(&fields(&[])), Err(TaskFileError::MissingColumn));
    assert_eq!(
        task_from_row(&fields(&["Buy milk", "2024-01-15T09:30:00+00:00"])),
        Err(TaskFileError::MissingColumn)
    );
    assert_eq!(
        task_from_row(&fields(&["Buy milk", "", ""])),
        Err(TaskFileError::ParseColumn)
    );
    assert_eq!(
        task_from_row(&fields(&["Buy milk", "soon", "2024-01-15T09:30:00+00:00"])),
        Err(TaskFileError::ParseColumn)
    );
}

#[test]
fn row_from_columns_leaves_a_missing_time_empty() {
    assert_eq!(
        row_from_columns("Buy milk".to_string(), "then".to_string(), None),
        fields(&["Buy milk", "then", ""])
    );
    assert_eq!(
        row_from_columns("Buy milk".to_string(), "then".to_string(), Some("later".to_string())),
        fields(&["Buy milk", "then", "later"])
    );
}

#[test]
fn row_from_task_writes_the_times() {
    let store = sample_store();
    assert_eq!(
        row_from_task(&store.tasks[0]),
        Some(fields(&["Buy milk", "2024-01-15T09:30:00+00:00", ""]))
    );
    assert_eq!(
        row_from_task(&store.tasks[1]),
        Some(fields(&[
            "Write report",
            "2024-01-10T08:00:00+00:00",
            "2024-01-12T17:45:00+00:00",
        ]))
    );
    assert_eq!(row_from_task(&Task::new("Buy milk".to_string(), at(i64::MIN))), None);
    let late = Task { text: "x".to_string(), created: at(0), completed: Some(at(i64::MAX)) };
    assert_eq!(row_from_task(&late), None);
}

#[test]
fn load_records_passes_over_unread_records() {
    let mut tasks = Tasks::new();
    let records = vec![
        None,
        Some(fields(&["Buy milk", "2024-01-15T09:30:00+00:00", ""])),
        None,
        Some(fields(&[
            "Write report",
            "2024-01-10T08:00:00+00:00",
            "2024-01-12T17:45:00+00:00",
        ])),
    ];
    assert_eq!(tasks.load_records(&records), Ok(()));
    assert_eq!(tasks, sample_store());
}

#[test]
fn load_records_stops_at_the_first_failure() {
    let mut tasks = Tasks::new();
    let records = vec![
        Some(fields(&["Buy milk", "2024-01-15T09:30:00+00:00", ""])),
        Some(fields(&["short"])),
        Some(fields(&["Broken", "no time", ""])),
    ];
    assert_eq!(tasks.load_records(&records), Err(TaskFileError::MissingColumn));
    assert_eq!(tasks.len(), 1);
    assert_eq!(tasks.load_records(&vec![]), Ok(()));
    assert_eq!(tasks.len(), 1);
}

#[test]
fn a_task_created_now_can_be_written() {
    let task = Task::from_string("Buy milk".to_string());
    let row = row_from_task(&task).unwrap();
    assert_eq!(row.len(), 3);
    assert_eq!(row[0], "Buy milk");
    assert_eq!(row[2], "");
    assert_eq!(task_from_row(&row).map(|read| read.text), Ok("Buy milk".to_string()));
}

#[test]
fn what_load_read_can_be_saved() {
    let (tasks, result) = load(
        "text,created,completed\n\
         Buy milk,2024-01-15 09:30:00 +0000,\n\
         Write report,2016-12-31T23:59:60Z,2024-01-12T17:45:00.5+05:30\n",
    );
    assert_eq!(result, Ok(()));
    assert_eq!(tasks.len(), 2);
    assert_eq!(
        String::from_utf8(tasks.save(true).unwrap()).unwrap(),
        "text,created,completed\n\
         Buy milk,2024-01-15T09:30:00+00:00,\n\
         Write report,2016-12-31T23:59:60+00:00,2024-01-12T17:45:00.500+05:30\n"
    );
}
