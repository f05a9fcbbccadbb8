use td_todo::pattern::{is_match, is_pattern};
use td_todo::selector::{
    is_expression, selector_from_string, try_selector_from_string, EmptyBehaviour, Selector,
    SelectorError,
};
use td_todo::store::Tasks;
use td_todo::task::Task;
use td_todo::time::Timestamp;

fn store_of(texts: &[&str]) -> Tasks {
    let created = Timestamp { secs: 1705311000, nanos: 0, offset: 0 };
    Tasks { tasks: texts.iter().map(|text| Task::new(text.to_string(), created)).collect() }
}

fn matched(selector: &Selector, tasks: &Tasks, upto: usize) -> Vec<usize> {
    (0..upto).filter(|position| selector.matches(tasks, *position)).collect()
}

#[test]
fn empty_expression_selects_the_front_task() {
    let selector = Selector::parse("", EmptyBehaviour::SelectLast);
    assert_eq!(selector, Selector::Index { index: 0 });
    let tasks = store_of(&["a", "b", "c"]);
    assert_eq!(matched(&selector, &tasks, 10), vec![0]);
}

#[test]
fn empty_expression_selects_all() {
    let selector = Selector::parse("", EmptyBehaviour::SelectAll);
    assert_eq!(selector, Selector::All);
    let tasks = store_of(&["a", "b", "c"]);
    assert_eq!(matched(&selector, &tasks, 5), vec![0, 1, 2, 3, 4]);
}

#[test]
fn number_selects_the_position_before_it() {
    let selector = Selector::parse("3", EmptyBehaviour::SelectLast);
    assert_eq!(selector, Selector::Index { index: 2 });
    let tasks = store_of(&["a", "b", "c", "d"]);
    assert_eq!(matched(&selector, &tasks, 10), vec![2]);
    assert_eq!(Selector::parse("3", EmptyBehaviour::SelectAll), Selector::Index { index: 2 });
}

#[test]
fn range_selects_the_positions_between() {
    let selector = Selector::parse("2-4", EmptyBehaviour::SelectLast);
    assert_eq!(selector, Selector::Range { from: 1, to: 3 });
    let tasks = store_of(&["a", "b", "c", "d", "e", "f"]);
    assert_eq!(matched(&selector, &tasks, 10), vec![1, 2, 3]);
}

#[test]
fn zero_selects_nothing() {
    let selector = Selector::parse("0", EmptyBehaviour::SelectLast);
    assert_eq!(selector, Selector::Index { index: -1 });
    let tasks = store_of(&["a", "b", "c"]);
    assert_eq!(matched(&selector, &tasks, 10), Vec::<usize>::new());
    assert!(!selector.matches(&tasks, usize::MAX));
}

#[test]
fn range_from_zero_begins_at_the_front() {
    let selector = Selector::parse("0-2", EmptyBehaviour::SelectLast);
    assert_eq!(selector, Selector::Range { from: -1, to: 1 });
    let tasks = store_of(&["a", "b", "c"]);
    assert_eq!(matched(&selector, &tasks, 10), vec![0, 1]);
}

#[test]
fn range_to_zero_selects_nothing() {
    let selector = Selector::parse("2-0", EmptyBehaviour::SelectLast);
    assert_eq!(selector, Selector::Range { from: 1, to: -1 });
    let tasks = store_of(&["a", "b", "c"]);
    assert_eq!(matched(&selector, &tasks, 10), Vec::<usize>::new());
}

#[test]
fn backward_range_selects_nothing() {
    let selector = Selector::parse("4-2", EmptyBehaviour::SelectLast);
    assert_eq!(selector, Selector::Range { from: 3, to: 1 });
    let tasks = store_of(&["a", "b", "c", "d", "e"]);
    assert_eq!(matched(&selector, &tasks, 10), Vec::<usize>::new());
}

#[test]
fn largest_number_is_kept_exactly() {
    assert_eq!(
        Selector::parse("4294967295", EmptyBehaviour::SelectLast),
        Selector::Index { index: 4294967294 }
    );
    assert_eq!(
        Selector::parse("1-4294967295", EmptyBehaviour::SelectLast),
        Selector::Range { from: 0, to: 4294967294 }
    );
    assert_eq!(
        Selector::parse("4294967296", EmptyBehaviour::SelectLast),
        Selector::Pattern { pattern: "4294967296".to_string() }
    );
}

#[test]
fn anything_else_is_a_pattern() {
    for text in ["milk", "2-", "-4", "2-4-6", "2 - 4", "a-b", "2--4", "-", " 3", "1-x"] {
        assert_eq!(
            Selector::parse(text, EmptyBehaviour::SelectLast),
            Selector::Pattern { pattern: text.to_string() },
            "{:?}",
            text
        );
    }
}

#[test]
fn range_is_cut_at_the_first_dash() {
    assert_eq!(
        Selector::parse("+2-+4", EmptyBehaviour::SelectAll),
        Selector::Range { from: 1, to: 3 }
    );
    assert_eq!(
        Selector::parse("02-004", EmptyBehaviour::SelectAll),
        Selector::Range { from: 1, to: 3 }
    );
}

#[test]
fn pattern_matches_part_of_the_text() {
    let selector = Selector::parse("milk", EmptyBehaviour::SelectLast);
    let tasks = store_of(&["Buy milk", "Write report", "milkshake", "MILK"]);
    assert_eq!(matched(&selector, &tasks, 10), vec![0, 2]);
}

#[test]
fn pattern_is_a_regular_expression() {
    let tasks = store_of(&["Buy milk", "Write report", "Buy bread"]);
    let selector = Selector::parse("^Buy (milk|bread)$", EmptyBehaviour::SelectLast);
    assert_eq!(matched(&selector, &tasks, 3), vec![0, 2]);
    let selector = Selector::parse("r.p", EmptyBehaviour::SelectLast);
    assert_eq!(matched(&selector, &tasks, 3), vec![1]);
}

#[test]
fn pattern_matches_no_position_outside_the_tasks() {
    let selector = Selector::Pattern { pattern: ".*".to_string() };
    let tasks = store_of(&["a", "b"]);
    assert!(selector.matches(&tasks, 1));
    assert!(!selector.matches(&tasks, 2));
    assert!(!selector.matches(&Tasks::new(), 0));
}

#[test]
fn index_and_range_do_not_look_at_the_tasks() {
    let empty = Tasks::new();
    assert!(Selector::Index { index: 5 }.matches(&empty, 5));
    assert!(Selector::Range { from: 2, to: 7 }.matches(&empty, 7));
    assert!(!Selector::Range { from: 2, to: 7 }.matches(&empty, 8));
    assert!(Selector::All.matches(&empty, 0));
}

#[test]
fn broken_pattern_is_not_usable() {
    assert!(!Selector::Pattern { pattern: "(".to_string() }.is_usable());
    assert!(!Selector::parse("(", EmptyBehaviour::SelectLast).is_usable());
    assert!(Selector::Pattern { pattern: "milk".to_string() }.is_usable());
    assert!(Selector::All.is_usable());
    assert!(Selector::Index { index: -1 }.is_usable());
    assert!(Selector::Range { from: 3, to: 1 }.is_usable());
}

#[test]
fn is_expression_knows_what_has_a_selector() {
    for text in ["", "3", "0", "2-4", "4-2", "milk", "^a.*b$", "2-", "a-b"] {
        assert!(is_expression(text, EmptyBehaviour::SelectLast), "{:?}", text);
        assert!(is_expression(text, EmptyBehaviour::SelectAll), "{:?}", text);
    }
    for text in ["(", "a{2,1}", "[z-a]", "*", "\\", "1-("] {
        assert!(!is_expression(text, EmptyBehaviour::SelectLast), "{:?}", text);
        assert!(!is_expression(text, EmptyBehaviour::SelectAll), "{:?}", text);
    }
}

#[test]
fn try_selector_from_string_refuses_a_broken_pattern() {
    assert_eq!(
        try_selector_from_string("(", EmptyBehaviour::SelectLast),
        Err(SelectorError::InvalidPattern)
    );
    assert_eq!(
        try_selector_from_string("a{2,1}", EmptyBehaviour::SelectAll),
        Err(SelectorError::InvalidPattern)
    );
    assert_eq!(
        try_selector_from_string("[z-a]", EmptyBehaviour::SelectAll),
        Err(SelectorError::InvalidPattern)
    );
}

#[test]
fn try_selector_from_string_reads_every_kind() {
    assert_eq!(try_selector_from_string("", EmptyBehaviour::SelectAll), Ok(Selector::All));
    assert_eq!(
        try_selector_from_string("", EmptyBehaviour::SelectLast),
        Ok(Selector::Index { index: 0 })
    );
    assert_eq!(
        try_selector_from_string("7", EmptyBehaviour::SelectAll),
        Ok(Selector::Index { index: 6 })
    );
    assert_eq!(
        try_selector_from_string("1-1", EmptyBehaviour::SelectAll),
        Ok(Selector::Range { from: 0, to: 0 })
    );
    assert_eq!(
        try_selector_from_string("re.ort", EmptyBehaviour::SelectAll),
        Ok(Selector::Pattern { pattern: "re.ort".to_string() })
    );
}

#[test]
fn selector_from_string_reads_every_kind() {
    assert_eq!(selector_from_string("", EmptyBehaviour::SelectAll), Selector::All);
    assert_eq!(
        selector_from_string("", EmptyBehaviour::SelectLast),
        Selector::Index { index: 0 }
    );
    assert_eq!(
        selector_from_string("7", EmptyBehaviour::SelectAll),
        Selector::Index { index: 6 }
    );
    assert_eq!(
        selector_from_string("0", EmptyBehaviour::SelectAll),
        Selector::Index { index: -1 }
    );
    assert_eq!(
        selector_from_string("1-1", EmptyBehaviour::SelectAll),
        Selector::Range { from: 0, to: 0 }
    );
    assert_eq!(
        selector_from_string("re.ort", EmptyBehaviour::SelectAll),
        Selector::Pattern { pattern: "re.ort".to_string() }
    );
}

#[test]
fn selector_from_string_gives_the_same_twice() {
    for text in ["", "3", "2-4", "milk"] {
        assert_eq!(
            selector_from_string(text, EmptyBehaviour::SelectLast),
            selector_from_string(text, EmptyBehaviour::SelectLast)
        );
    }
    assert_eq!(
        try_selector_from_string("(", EmptyBehaviour::SelectLast),
        try_selector_from_string("(", EmptyBehaviour::SelectLast)
    );
}

#[test]
fn selector_error_has_a_message() {
    assert_eq!(SelectorError::InvalidPattern.message(), "Invalid regex");
}

#[test]
fn is_pattern_asks_the_regex_engine() {
    assert!(is_pattern("milk"));
    assert!(is_pattern(""));
    assert!(is_pattern("^a.*b$"));
    assert!(!is_pattern("("));
    assert!(!is_pattern("*"));
    assert!(!is_pattern("\\"));
}

#[test]
fn is_match_asks_the_regex_engine() {
    assert!(is_match("il", "Buy milk"));
    assert!(!is_match("^il", "Buy milk"));
    assert!(is_match("", "anything"));
    assert!(is_match("\\d+", "call 555"));
    assert!(!is_match("\\d+", "call me"));
    assert!(!is_match("(", "("));
    assert!(!is_match("Buy milk", "il"));
}
