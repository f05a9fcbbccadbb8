//! Selectors: what a user types to pick tasks, and which positions it picks.

use crate::pattern::{is_match, is_pattern, pattern_matches, regex_compiles};
use crate::store::Tasks;
use crate::task::TaskView;
use crate::text::{
    chars_of, decimal, find_first, is_digit, is_first, lemma_decimal_is_number,
    lemma_first_is_one, lemma_number_has_no, number_in, number_of,
};
use vstd::prelude::*;

verus! {

/// What an empty expression selects.
#[derive(Clone, Copy, Debug, PartialEq, Eq, Structural)]
pub enum EmptyBehaviour {
    /// The task at the front.
    SelectLast,
    /// Every task.
    SelectAll,
}

/// A way of picking tasks by position or by text. Positions count from 0;
/// a user counts from 1, so a selector may hold -1, which no task has.
#[derive(Clone, Debug, PartialEq, Eq)]
pub enum Selector {
    /// Every position.
    All,
    /// One position.
    Index { index: i64 },
    /// The positions from `from` to `to`, both included; none if `from` is
    /// greater than `to`.
    Range { from: i64, to: i64 },
    /// The positions of the tasks in whose text the regular expression
    /// `pattern` finds a match. A selector whose pattern is no regular
    /// expression is not usable: nothing can be selected with it.
    Pattern { pattern: String },
}

/// A selector as the contracts see it.
pub enum SelectorView {
    All,
    Index { index: int },
    Range { from: int, to: int },
    Pattern { pattern: Seq<char> },
}

impl View for Selector {
    type V = SelectorView;

    open spec fn view(&self) -> SelectorView {
        match self {
            Selector::All => SelectorView::All,
            Selector::Index { index } => SelectorView::Index { index: *index as int },
            Selector::Range { from, to } => SelectorView::Range {
                from: *from as int,
                to: *to as int,
            },
            Selector::Pattern { pattern } => SelectorView::Pattern { pattern: pattern@ },
        }
    }
}

impl SelectorView {
    /// Whether the selector picks `position` of `tasks`. Only a pattern
    /// looks at the tasks, and it picks no position outside them.
    pub open spec fn matches(self, tasks: Seq<TaskView>, position: int) -> bool {
        match self {
            SelectorView::All => true,
            SelectorView::Index { index } => position == index,
            SelectorView::Range { from, to } => from <= position <= to,
            SelectorView::Pattern { pattern } => 0 <= position < tasks.len() && pattern_matches(
                pattern,
                tasks[position].text,
            ),
        }
    }

    /// Whether the selector can be used: a pattern has to be a regular
    /// expression.
    pub open spec fn is_usable(self) -> bool {
        self matches SelectorView::Pattern { pattern } ==> regex_compiles(pattern)
    }
}

/// The two numbers that `s` writes around its first `-`, if it does.
pub open spec fn range_of(s: Seq<char>) -> Option<(u32, u32)> {
    if exists|i: int| is_first(s, '-', i) {
        let i = choose|i: int| is_first(s, '-', i);
        match (number_of(s.take(i)), number_of(s.skip(i + 1))) {
            (Some(a), Some(b)) => Some((a, b)),
            _ => None,
        }
    } else {
        None
    }
}

/// The selector that the expression `s` stands for: nothing, a number `n`
/// for position `n - 1`, two numbers `a-b` for the positions from `a - 1` to
/// `b - 1`, or else a pattern.
pub open spec fn selector_of(s: Seq<char>, empty: EmptyBehaviour) -> SelectorView {
    if s.len() == 0 {
        match empty {
            EmptyBehaviour::SelectLast => SelectorView::Index { index: 0 },
            EmptyBehaviour::SelectAll => SelectorView::All,
        }
    } else if let Some(n) = number_of(s) {
        SelectorView::Index { index: n - 1 }
    } else if let Some((a, b)) = range_of(s) {
        SelectorView::Range { from: a - 1, to: b - 1 }
    } else {
        SelectorView::Pattern { pattern: s }
    }
}

/// Reads `chars` as two numbers around the first `-`.
fn range_in(chars: &Vec<char>) -> (r: Option<(u32, u32)>)
    ensures
        r == range_of(chars@),
{
    match find_first(chars, '-') {
        None => None,
        Some(dash) => {
            assert(dash < chars.len());
            proof {
                let i = choose|i: int| is_first(chars@, '-', i);
                lemma_first_is_one(chars@, '-', i, dash as int);
                assert(chars@.take(dash as int) == chars@.subrange(0, dash as int));
                assert(chars@.skip(dash + 1) == chars@.subrange(dash + 1, chars@.len() as int));
            }
            match (number_in(chars, 0, dash), number_in(chars, dash + 1, chars.len())) {
                (Some(a), Some(b)) => Some((a, b)),
                _ => None,
            }
        },
    }
}

/// What went wrong when an expression was read.
#[derive(Clone, Copy, Debug, PartialEq, Eq, Structural)]
pub enum SelectorError {
    /// The expression is neither empty, nor a number, nor a range, nor a
    /// regular expression.
    InvalidPattern,
}

impl SelectorError {
    /// What to tell the user.
    pub fn message(&self) -> (r: &'static str)
        ensures
            r@ == "Invalid regex"@,
    {
        "Invalid regex"
    }
}

impl Selector {
    /// Whether the selector picks position `index` of `tasks`. A pattern
    /// that is no regular expression cannot be asked.
    pub fn matches(&self, tasks: &Tasks, index: usize) -> (r: bool)
        requires
            self@.is_usable(),
        ensures
            r == self@.matches(tasks@, index as int),
    {
        match self {
            Selector::All => true,
            Selector::Index { index: wanted } => *wanted >= 0 && *wanted as u64 == index as u64,
            Selector::Range { from, to } => {
                (*from < 0 || *from as u64 <= index as u64) && *to >= 0 && index as u64
                    <= *to as u64
            },
            Selector::Pattern { pattern } => {
                if index < tasks.tasks.len() {
                    is_match(pattern.as_str(), tasks.tasks[index].text.as_str())
                } else {
                    false
                }
            },
        }
    }

    /// Reads an expression without asking whether a pattern in it is a
    /// regular expression. What comes out can be used for selecting only
    /// once [`Selector::is_usable`] has said so.
    pub fn parse(string: &str, empty: EmptyBehaviour) -> (selector: Selector)
        ensures
            selector@ == selector_of(string@, empty),
            string@.len() == 0 && empty == EmptyBehaviour::SelectLast ==> selector@ == (
            SelectorView::Index { index: 0 }),
            string@.len() == 0 && empty == EmptyBehaviour::SelectAll ==> selector@
                == SelectorView::All,
    {
        let chars = chars_of(string);
        if chars.len() == 0 {
            return match empty {
                EmptyBehaviour::SelectLast => Selector::Index { index: 0 },
                EmptyBehaviour::SelectAll => Selector::All,
            };
        }
        assert(chars@.subrange(0, chars@.len() as int) == chars@);
        if let Some(n) = number_in(&chars, 0, chars.len()) {
            return Selector::Index { index: n as i64 - 1 };
        }
        if let Some((a, b)) = range_in(&chars) {
            return Selector::Range { from: a as i64 - 1, to: b as i64 - 1 };
        }
        Selector::Pattern { pattern: string.to_owned() }
    }

    /// Whether the selector can be used: a pattern has to be a regular
    /// expression.
    pub fn is_usable(&self) -> (r: bool)
        ensures
            r == self@.is_usable(),
    {
        match self {
            Selector::Pattern { pattern } => is_pattern(pattern.as_str()),
            _ => true,
        }
    }
}

/// Reads an expression that is empty, a number, a range or a regular
/// expression. Anything else is left out: there is no selector for it.
pub fn selector_from_string(string: &str, empty: EmptyBehaviour) -> (selector: Selector)
    requires
        selector_of(string@, empty).is_usable(),
    ensures
        selector@ == selector_of(string@, empty),
        selector@.is_usable(),
{
    Selector::parse(string, empty)
}

/// Whether the expression is empty, a number, a range or a regular
/// expression, so that there is a selector for it.
pub fn is_expression(string: &str, empty: EmptyBehaviour) -> (r: bool)
    ensures
        r == selector_of(string@, empty).is_usable(),
{
    Selector::parse(string, empty).is_usable()
}

/// Reads an expression, where there is a selector for it. An expression
/// that would be a pattern and is no regular expression is refused.
pub fn try_selector_from_string(string: &str, empty: EmptyBehaviour) -> (r: Result<
    Selector,
    SelectorError,
>)
    ensures
        match r {
            Ok(selector) => selector@ == selector_of(string@, empty) && selector@.is_usable(),
            Err(error) => {
                &&& error == SelectorError::InvalidPattern
                &&& !selector_of(string@, empty).is_usable()
            },
        },
{
    if is_expression(string, empty) {
        Ok(selector_from_string(string, empty))
    } else {
        Err(SelectorError::InvalidPattern)
    }
}

/// The empty expression picks position 0 and no other where the last task
/// is wanted, and every position where all are wanted.
pub proof fn lemma_empty_expression(tasks: Seq<TaskView>, position: int)
    ensures
        selector_of(Seq::empty(), EmptyBehaviour::SelectLast).matches(tasks, position) <==> position
            == 0,
        selector_of(Seq::empty(), EmptyBehaviour::SelectAll).matches(tasks, position),
{
}

/// A number `n` picks position `n - 1` and no other, whatever an empty
/// expression would pick; the number 0 picks no position at all.
pub proof fn lemma_number_selects(
    n: nat,
    empty: EmptyBehaviour,
    tasks: Seq<TaskView>,
    position: int,
)
    requires
        n <= u32::MAX,
        0 <= position,
    ensures
        selector_of(decimal(n), empty) == (SelectorView::Index { index: n - 1 }),
        selector_of(decimal(n), empty).matches(tasks, position) <==> position == n - 1,
{
    lemma_decimal_is_number(n);
}

/// The number that a listing shows before a task picks that task.
pub proof fn lemma_shown_number_selects(tasks: Seq<TaskView>, shown: int, position: int)
    requires
        0 <= shown < tasks.len(),
        shown < u32::MAX,
        0 <= position,
    ensures
        selector_of(decimal((shown + 1) as nat), EmptyBehaviour::SelectLast).matches(
            tasks,
            position,
        ) <==> position == shown,
{
    lemma_number_selects((shown + 1) as nat, EmptyBehaviour::SelectLast, tasks, position);
}

/// Two numbers `a` and `b` with a `-` between them pick the positions from
/// `a - 1` to `b - 1` and no others; none, where `a` is greater than `b`.
pub proof fn lemma_range_selects(
    a: nat,
    b: nat,
    empty: EmptyBehaviour,
    tasks: Seq<TaskView>,
    position: int,
)
    requires
        a <= u32::MAX,
        b <= u32::MAX,
    ensures
        selector_of(decimal(a) + seq!['-'] + decimal(b), empty) == (SelectorView::Range {
            from: a - 1,
            to: b - 1,
        }),
        selector_of(decimal(a) + seq!['-'] + decimal(b), empty).matches(tasks, position) <==> a - 1
            <= position <= b - 1,
{
    let s = decimal(a) + seq!['-'] + decimal(b);
    let dash = decimal(a).len() as int;
    lemma_decimal_is_number(a);
    lemma_decimal_is_number(b);
    assert(s[dash] == '-');
    assert(number_of(s) is None) by {
        if number_of(s) is Some {
            lemma_number_has_no(s, '-');
            assert(s.contains('-'));
        }
    }
    assert(is_first(s, '-', dash)) by {
        assert forall|j: int| 0 <= j < dash implies s[j] != '-' by {
            assert(s[j] == decimal(a)[j]);
            assert(is_digit(decimal(a)[j]));
        }
    }
    let i = choose|i: int| is_first(s, '-', i);
    lemma_first_is_one(s, '-', i, dash);
    assert(s.take(dash) =~= decimal(a));
    assert(s.skip(dash + 1) =~= decimal(b));
    assert(range_of(s) == Some((a as u32, b as u32)));
}

/// An expression that is read as a range holds exactly one `-`.
pub proof fn lemma_range_has_one_dash(s: Seq<char>, i: int, j: int)
    requires
        range_of(s) is Some,
        0 <= i < s.len(),
        0 <= j < s.len(),
        s[i] == '-',
        s[j] == '-',
    ensures
        i == j,
        s.contains('-'),
{
    let first = choose|k: int| is_first(s, '-', k);
    lemma_number_has_no(s.take(first), '-');
    lemma_number_has_no(s.skip(first + 1), '-');
    if i > first {
        assert(s.skip(first + 1)[i - first - 1] == '-');
    }
    if j > first {
        assert(s.skip(first + 1)[j - first - 1] == '-');
    }
}

} // verus!
