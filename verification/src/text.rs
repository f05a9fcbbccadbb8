//! Decimal numbers in text, and the few operations on text that the to-do
//! list needs: finding a character, splitting and joining.

use vstd::prelude::*;

verus! {

/// Whether `c` is one of the ten ASCII digits.
pub open spec fn is_digit(c: char) -> bool {
    '0' <= c && c <= '9'
}

/// The number that the digit `c` stands for.
pub open spec fn digit_value(c: char) -> int
    recommends
        is_digit(c),
{
    c as int - '0' as int
}

/// Whether `s` is made of ASCII digits only.
pub open spec fn all_digits(s: Seq<char>) -> bool {
    forall|i: int| 0 <= i < s.len() ==> is_digit(#[trigger] s[i])
}

/// The number that the digits `s` write in base ten; 0 for no digits.
pub open spec fn digits_value(s: Seq<char>) -> int
    recommends
        all_digits(s),
    decreases s.len(),
{
    if s.len() == 0 {
        0
    } else {
        10 * digits_value(s.drop_last()) + digit_value(s.last())
    }
}

/// The number that the digits `s` write, as far as it fits 32 bits: one or
/// more ASCII digits and nothing else.
pub open spec fn unsigned_of(s: Seq<char>) -> Option<u32> {
    if s.len() > 0 && all_digits(s) && digits_value(s) <= u32::MAX {
        Some(digits_value(s) as u32)
    } else {
        None
    }
}

/// The number that `s` writes: digits as in [`unsigned_of`], which a single
/// `+` may precede. Anything else is no number.
pub open spec fn number_of(s: Seq<char>) -> Option<u32> {
    if s.len() > 0 && s[0] == '+' {
        unsigned_of(s.drop_first())
    } else {
        unsigned_of(s)
    }
}

/// Digits that are added at the end never make the number smaller.
pub proof fn lemma_digits_value_grows(s: Seq<char>, k: int)
    requires
        all_digits(s),
        0 <= k <= s.len(),
    ensures
        0 <= digits_value(s.take(k)) <= digits_value(s),
    decreases s.len() - k,
{
    if k == s.len() {
        assert(s.take(k) == s);
        lemma_digits_value_nonnegative(s);
    } else {
        lemma_digits_value_grows(s, k + 1);
        assert(s.take(k + 1).drop_last() == s.take(k));
        assert(is_digit(s[k]));
        lemma_digits_value_nonnegative(s.take(k));
    }
}

/// Digits never write a negative number.
pub proof fn lemma_digits_value_nonnegative(s: Seq<char>)
    requires
        all_digits(s),
    ensures
        0 <= digits_value(s),
    decreases s.len(),
{
    if s.len() > 0 {
        lemma_digits_value_nonnegative(s.drop_last());
        assert(is_digit(s.last()));
    }
}

/// A number holds no character but digits and a leading `+`.
pub proof fn lemma_number_has_no(s: Seq<char>, c: char)
    requires
        number_of(s) is Some,
        !is_digit(c),
        c != '+',
    ensures
        !s.contains(c),
{
    if s.contains(c) {
        let i = choose|i: int| 0 <= i < s.len() && s[i] == c;
        if s[0] == '+' {
            assert(s.drop_first()[i - 1] == c);
        }
    }
}

/// Whether the first `c` of `s` stands at `i`.
pub open spec fn is_first(s: Seq<char>, c: char, i: int) -> bool {
    &&& 0 <= i < s.len()
    &&& s[i] == c
    &&& forall|j: int| 0 <= j < i ==> s[j] != c
}

/// The pieces into which the separator `c` cuts `s`: what stands before
/// the first `c`, then the pieces of what follows it. Text without a `c` is
/// one piece, even if it is empty.
pub open spec fn pieces(s: Seq<char>, c: char) -> Seq<Seq<char>>
    decreases s.len(),
{
    if exists|i: int| is_first(s, c, i) {
        let i = choose|i: int| is_first(s, c, i);
        seq![s.take(i)] + pieces(s.skip(i + 1), c)
    } else {
        seq![s]
    }
}

/// The words one after the other, with `separator` between each two.
pub open spec fn joined(words: Seq<Seq<char>>, separator: Seq<char>) -> Seq<char>
    decreases words.len(),
{
    if words.len() == 0 {
        Seq::empty()
    } else if words.len() == 1 {
        words[0]
    } else {
        joined(words.drop_last(), separator) + separator + words.last()
    }
}

/// The digit that writes `d`.
pub open spec fn digit_char(d: int) -> char
    recommends
        0 <= d < 10,
{
    if d == 0 {
        '0'
    } else if d == 1 {
        '1'
    } else if d == 2 {
        '2'
    } else if d == 3 {
        '3'
    } else if d == 4 {
        '4'
    } else if d == 5 {
        '5'
    } else if d == 6 {
        '6'
    } else if d == 7 {
        '7'
    } else if d == 8 {
        '8'
    } else {
        '9'
    }
}

/// `n` written in base ten, without leading zeros.
pub open spec fn decimal(n: nat) -> Seq<char>
    decreases n,
{
    if n < 10 {
        seq![digit_char(n as int)]
    } else {
        decimal(n / 10).push(digit_char((n % 10) as int))
    }
}

/// A number that is written in base ten is read as that number.
pub proof fn lemma_decimal_is_number(n: nat)
    requires
        n <= u32::MAX,
    ensures
        decimal(n).len() > 0,
        all_digits(decimal(n)),
        digits_value(decimal(n)) == n,
        number_of(decimal(n)) == Some(n as u32),
    decreases n,
{
    let s = decimal(n);
    if n < 10 {
        assert(s.drop_last() =~= Seq::<char>::empty());
        assert(s.last() == digit_char(n as int));
        assert(digits_value(s.drop_last()) == 0);
    } else {
        lemma_decimal_is_number(n / 10);
        assert(s.drop_last() =~= decimal(n / 10));
        assert(s.last() == digit_char((n % 10) as int));
        assert forall|i: int| 0 <= i < s.len() implies is_digit(#[trigger] s[i]) by {
            if i < s.len() - 1 {
                assert(s[i] == decimal(n / 10)[i]);
            }
        }
    }
    assert(is_digit(s[0]));
}

/// The characters of `s`, in order.
pub fn chars_of(s: &str) -> (chars: Vec<char>)
    ensures
        chars@ == s@,
{
    let mut chars: Vec<char> = Vec::new();
    for c in it: s.chars()
        invariant
            chars@ == it.seq().take(it.index() as int),
            it.seq() == s@,
    {
        chars.push(c);
    }
    chars
}

/// The digit that `c` stands for, if it is one.
pub fn digit_of(c: char) -> (r: Option<u32>)
    ensures
        r is Some <==> is_digit(c),
        r matches Some(d) ==> d == digit_value(c) && d < 10,
{
    if '0' <= c && c <= '9' {
        Some(c as u32 - '0' as u32)
    } else {
        None
    }
}

/// Reads the characters of `chars` from `from` up to `to` as a number.
pub fn number_in(chars: &Vec<char>, from: usize, to: usize) -> (r: Option<u32>)
    requires
        from <= to <= chars.len(),
    ensures
        r == number_of(chars@.subrange(from as int, to as int)),
{
    let ghost s = chars@.subrange(from as int, to as int);
    let start: usize = if from < to && chars[from] == '+' {
        from + 1
    } else {
        from
    };
    let ghost digits = chars@.subrange(start as int, to as int);
    assert(digits == if s.len() > 0 && s[0] == '+' {
        s.drop_first()
    } else {
        s
    });
    assert(number_of(s) == unsigned_of(digits));
    if start == to {
        return None;
    }
    let mut value: u64 = 0;
    let mut i: usize = start;
    while i < to
        invariant
            start <= i <= to <= chars.len(),
            start < to,
            digits == chars@.subrange(start as int, to as int),
            number_of(chars@.subrange(from as int, to as int)) == unsigned_of(digits),
            all_digits(digits.take(i - start)),
            value == digits_value(digits.take(i - start)),
            value <= u32::MAX,
        decreases to - i,
    {
        let ghost before = digits.take(i - start);
        let ghost after = digits.take(i - start + 1);
        assert(after.drop_last() == before);
        assert(after.last() == chars[i as int]);
        match digit_of(chars[i]) {
            None => {
                assert(!is_digit(digits[i - start]));
                return None;
            },
            Some(d) => {
                assert forall|j: int| 0 <= j < after.len() implies is_digit(
                    #[trigger] after[j],
                ) by {
                    if j < before.len() {
                        assert(after[j] == before[j]);
                    }
                }
                value = value * 10 + d as u64;
                if value > 0xffff_ffff {
                    proof {
                        if all_digits(digits) {
                            lemma_digits_value_grows(digits, i - start + 1);
                        }
                    }
                    return None;
                }
            },
        }
        i = i + 1;
    }
    assert(digits.take(i - start) == digits);
    Some(value as u32)
}

/// The digit that writes `d`, as text.
fn digit_text(d: usize) -> (r: &'static str)
    requires
        d < 10,
    ensures
        r@ == seq![digit_char(d as int)],
{
    proof {
        reveal_strlit("0");
        reveal_strlit("1");
        reveal_strlit("2");
        reveal_strlit("3");
        reveal_strlit("4");
        reveal_strlit("5");
        reveal_strlit("6");
        reveal_strlit("7");
        reveal_strlit("8");
        reveal_strlit("9");
    }
    let r = if d == 0 {
        "0"
    } else if d == 1 {
        "1"
    } else if d == 2 {
        "2"
    } else if d == 3 {
        "3"
    } else if d == 4 {
        "4"
    } else if d == 5 {
        "5"
    } else if d == 6 {
        "6"
    } else if d == 7 {
        "7"
    } else if d == 8 {
        "8"
    } else {
        "9"
    };
    assert(r@ =~= seq![digit_char(d as int)]);
    r
}

/// Writes `n` in base ten, without leading zeros.
pub fn decimal_string(n: usize) -> (r: String)
    ensures
        r@ == decimal(n as nat),
    decreases n,
{
    if n < 10 {
        digit_text(n).to_owned()
    } else {
        let mut r = decimal_string(n / 10);
        r.append(digit_text(n % 10));
        assert(r@ =~= decimal(n as nat));
        r
    }
}

/// The position of the first `c` in `chars`.
pub fn find_first(chars: &Vec<char>, c: char) -> (r: Option<usize>)
    ensures
        match r {
            Some(i) => is_first(chars@, c, i as int),
            None => forall|i: int| !is_first(chars@, c, i),
        },
{
    let mut i: usize = 0;
    while i < chars.len()
        invariant
            i <= chars.len(),
            forall|j: int| 0 <= j < i ==> chars@[j] != c,
        decreases chars.len() - i,
    {
        if chars[i] == c {
            return Some(i);
        }
        i = i + 1;
    }
    None
}

/// Only one place is the first.
pub proof fn lemma_first_is_one(s: Seq<char>, c: char, i: int, j: int)
    requires
        is_first(s, c, i),
        is_first(s, c, j),
    ensures
        i == j,
{
    if i < j {
        assert(s[i] == c);
    } else if j < i {
        assert(s[j] == c);
    }
}

/// Joining a word and then more words is the word, the separator and the
/// other words joined.
pub proof fn lemma_joined_after_first(first: Seq<char>, more: Seq<Seq<char>>, separator: Seq<char>)
    requires
        more.len() > 0,
    ensures
        joined(seq![first] + more, separator) == first + separator + joined(more, separator),
    decreases more.len(),
{
    let all = seq![first] + more;
    assert(all.last() == more.last());
    if more.len() == 1 {
        assert(all.drop_last() =~= seq![first]);
        assert(joined(all.drop_last(), separator) == first);
    } else {
        assert(all.drop_last() =~= seq![first] + more.drop_last());
        lemma_joined_after_first(first, more.drop_last(), separator);
        assert(joined(all, separator) =~= first + separator + joined(more, separator));
    }
}

/// Cutting text at a separator gives at least one piece, no piece holds the
/// separator, and the pieces joined with the separator are the text again.
pub proof fn lemma_pieces_join(s: Seq<char>, c: char)
    ensures
        pieces(s, c).len() >= 1,
        forall|i: int| 0 <= i < pieces(s, c).len() ==> !(#[trigger] pieces(s, c)[i]).contains(c),
        joined(pieces(s, c), seq![c]) == s,
    decreases s.len(),
{
    if exists|i: int| is_first(s, c, i) {
        let i = choose|i: int| is_first(s, c, i);
        let head = s.take(i);
        let tail = s.skip(i + 1);
        let rest = pieces(tail, c);
        lemma_pieces_join(tail, c);
        assert(!head.contains(c)) by {
            if head.contains(c) {
                let j = choose|j: int| 0 <= j < head.len() && head[j] == c;
                assert(s[j] == c);
            }
        }
        assert forall|k: int| 0 <= k < pieces(s, c).len() implies !(#[trigger] pieces(s, c)[k])
            .contains(c) by {
            if k > 0 {
                assert(pieces(s, c)[k] == rest[k - 1]);
            }
        }
        lemma_joined_after_first(head, rest, seq![c]);
        assert(head + seq![c] + tail =~= s);
    } else {
        assert(!s.contains(c)) by {
            if s.contains(c) {
                lemma_has_first(s, c, s.len() as int);
            }
        }
    }
}

/// Text that holds `c` before `n` holds a first `c`.
proof fn lemma_has_first(s: Seq<char>, c: char, n: int)
    requires
        0 <= n <= s.len(),
        exists|j: int| 0 <= j < n && s[j] == c,
    ensures
        exists|i: int| is_first(s, c, i),
    decreases n,
{
    let j = choose|j: int| 0 <= j < n && s[j] == c;
    if exists|k: int| 0 <= k < j && s[k] == c {
        lemma_has_first(s, c, j);
    } else {
        assert(is_first(s, c, j));
    }
}

/// Cuts `s` at each `separator`.
pub fn split(s: &str, separator: char) -> (r: Vec<String>)
    ensures
        r.deep_view() == pieces(s@, separator),
{
    let chars = chars_of(s);
    let mut r: Vec<String> = Vec::new();
    let mut start: usize = 0;
    let mut i: usize = 0;
    assert(s@.skip(0) == s@);
    assert(r.deep_view() + pieces(s@.skip(0), separator) =~= pieces(s@, separator));
    while i < chars.len()
        invariant
            start <= i <= chars.len(),
            chars@ == s@,
            forall|j: int| start <= j < i ==> chars@[j] != separator,
            r.deep_view() + pieces(s@.skip(start as int), separator) == pieces(s@, separator),
        decreases chars.len() - i,
    {
        if chars[i] == separator {
            let ghost rest = s@.skip(start as int);
            let ghost before = r.deep_view();
            proof {
                assert(is_first(rest, separator, i - start));
                let k = choose|k: int| is_first(rest, separator, k);
                lemma_first_is_one(rest, separator, k, i - start);
                assert(rest.take(i - start) == s@.subrange(start as int, i as int));
                assert(rest.skip(i - start + 1) == s@.skip(i + 1));
            }
            r.push(s.substring_char(start, i).to_owned());
            assert(r.deep_view() =~= before.push(s@.subrange(start as int, i as int)));
            assert(r.deep_view() + pieces(s@.skip(i + 1), separator) =~= before + pieces(
                rest,
                separator,
            ));
            start = i + 1;
        }
        i = i + 1;
    }
    let ghost rest = s@.skip(start as int);
    let ghost before = r.deep_view();
    proof {
        assert forall|k: int| !is_first(rest, separator, k) by {
            if is_first(rest, separator, k) {
                assert(chars@[start + k] == separator);
            }
        }
        assert(rest == s@.subrange(start as int, chars.len() as int));
    }
    r.push(s.substring_char(start, chars.len()).to_owned());
    assert(r.deep_view() =~= before.push(rest));
    assert(before.push(rest) =~= before + pieces(rest, separator));
    r
}

/// Puts the words one after the other, with `separator` between each two.
pub fn join(words: &Vec<String>, from: usize, separator: &str) -> (r: String)
    requires
        from <= words.len(),
    ensures
        r@ == joined(words.deep_view().skip(from as int), separator@),
{
    let ghost all = words.deep_view().skip(from as int);
    let mut r = String::new();
    let mut i: usize = from;
    assert(all.take(0) =~= Seq::<Seq<char>>::empty());
    while i < words.len()
        invariant
            from <= i <= words.len(),
            all == words.deep_view().skip(from as int),
            r@ == joined(all.take(i - from), separator@),
        decreases words.len() - i,
    {
        proof {
            assert(all.take(i - from + 1).drop_last() == all.take(i - from));
            assert(all.take(i - from + 1).last() == words[i as int]@);
        }
        if i > from {
            r.append(separator);
        }
        r.append(words[i].as_str());
        assert(r@ =~= joined(all.take(i - from + 1), separator@));
        i = i + 1;
    }
    assert(all.take(i - from) == all);
    r
}

/// Reads `s` as a number.
pub fn parse_number(s: &str) -> (r: Option<u32>)
    ensures
        r == number_of(s@),
{
    let chars = chars_of(s);
    assert(chars@.subrange(0, chars@.len() as int) == chars@);
    number_in(&chars, 0, chars.len())
}

} // verus!
