//! The values that a `for` loop runs over.
//!
//! The loop's value expression, once expanded, is either a range of integers
//! written `start..end`, which stands for the integers from `start` up to but
//! not including `end`, or a list of words separated by white space.

use vstd::prelude::*;
use std::collections::VecDeque;
use vstd::string::StringExecFns;
use crate::text::{chars_of, texts};

verus! {

/// The characters that separate words: Unicode's white space.
pub open spec fn is_space_spec(c: char) -> bool {
    let code = c as u32;
    ||| 0x09 <= code <= 0x0d
    ||| code == 0x20
    ||| code == 0x85
    ||| code == 0xa0
    ||| code == 0x1680
    ||| 0x2000 <= code <= 0x200a
    ||| code == 0x2028
    ||| code == 0x2029
    ||| code == 0x202f
    ||| code == 0x205f
    ||| code == 0x3000
}

/// Whether a character separates words.
pub fn is_space(c: char) -> (answer: bool)
    ensures
        answer == is_space_spec(c),
{
    let code = c as u32;
    (0x09 <= code && code <= 0x0d) || code == 0x20 || code == 0x85 || code == 0xa0 || code
        == 0x1680 || (0x2000 <= code && code <= 0x200a) || code == 0x2028 || code == 0x2029
        || code == 0x202f || code == 0x205f || code == 0x3000
}

/// The first position at or after `from` that holds no white space, or the
/// length of the text.
pub open spec fn word_start(text: Seq<char>, from: int) -> int
    decreases text.len() - from,
{
    if 0 <= from < text.len() && is_space_spec(text[from]) {
        word_start(text, from + 1)
    } else {
        from
    }
}

/// The first position at or after `from` that holds white space, or the
/// length of the text.
pub open spec fn word_end(text: Seq<char>, from: int) -> int
    decreases text.len() - from,
{
    if 0 <= from < text.len() && !is_space_spec(text[from]) {
        word_end(text, from + 1)
    } else {
        from
    }
}

/// The words of `text` from position `from` on: its longest runs of
/// characters that are no white space, in order.
pub open spec fn words_from(text: Seq<char>, from: int) -> Seq<Seq<char>>
    decreases text.len() - from,
    when 0 <= from
    via words_from_decreases
{
    let start = word_start(text, from);
    if start >= text.len() {
        Seq::empty()
    } else {
        let end = word_end(text, start);
        seq![text.subrange(start, end)] + words_from(text, end)
    }
}

/// A word starts no earlier than where the search for it began.
pub proof fn lemma_word_start(text: Seq<char>, from: int)
    requires
        0 <= from <= text.len(),
    ensures
        from <= word_start(text, from) <= text.len(),
        word_start(text, from) < text.len() ==> !is_space_spec(text[word_start(text, from)]),
    decreases text.len() - from,
{
    if from < text.len() && is_space_spec(text[from]) {
        lemma_word_start(text, from + 1);
    }
}

/// A word that starts at `from` ends after `from`.
pub proof fn lemma_word_end(text: Seq<char>, from: int)
    requires
        0 <= from <= text.len(),
    ensures
        from <= word_end(text, from) <= text.len(),
        from < text.len() && !is_space_spec(text[from]) ==> from < word_end(text, from),
    decreases text.len() - from,
{
    if from < text.len() && !is_space_spec(text[from]) {
        lemma_word_end(text, from + 1);
    }
}

#[via_fn]
proof fn words_from_decreases(text: Seq<char>, from: int) {
    if from <= text.len() {
        lemma_word_start(text, from);
        let start = word_start(text, from);
        if start < text.len() {
            lemma_word_end(text, start);
        }
    } else {
        assert(word_start(text, from) == from);
    }
}

/// The words of a text.
pub open spec fn words(text: Seq<char>) -> Seq<Seq<char>> {
    words_from(text, 0)
}

/// From where a word starts to where it ends there is no white space.
pub proof fn lemma_word_has_no_space(text: Seq<char>, from: int, at: int)
    requires
        0 <= from <= at < word_end(text, from),
        from <= text.len(),
    ensures
        at < text.len(),
        !is_space_spec(text[at]),
    decreases text.len() - from,
{
    if from < text.len() && !is_space_spec(text[from]) {
        if at > from {
            lemma_word_has_no_space(text, from + 1, at);
        }
    }
}

/// Every word has at least one character, and none of its characters is
/// white space.
pub proof fn lemma_words_are_words(text: Seq<char>, from: int)
    requires
        0 <= from <= text.len(),
    ensures
        forall|i: int|
            0 <= i < words_from(text, from).len() ==> (#[trigger] words_from(text, from)[i]).len()
                > 0,
        forall|i: int, j: int|
            0 <= i < words_from(text, from).len() && 0 <= j < words_from(text, from)[i].len()
                ==> !is_space_spec(#[trigger] words_from(text, from)[i][j]),
    decreases text.len() - from,
{
    lemma_word_start(text, from);
    let start = word_start(text, from);
    if start < text.len() {
        lemma_word_end(text, start);
        let end = word_end(text, start);
        let word = text.subrange(start, end);
        lemma_words_are_words(text, end);
        let later = words_from(text, end);
        assert(words_from(text, from) =~= seq![word] + later);
        assert forall|i: int, j: int|
            0 <= i < words_from(text, from).len() && 0 <= j < words_from(
                text,
                from,
            )[i].len() implies !is_space_spec(#[trigger] words_from(text, from)[i][j]) by {
            if i == 0 {
                lemma_word_has_no_space(text, start, start + j);
            } else {
                assert(words_from(text, from)[i] == later[i - 1]);
            }
        }
        assert forall|i: int| 0 <= i < words_from(text, from).len() implies (#[trigger] words_from(
            text,
            from,
        )[i]).len() > 0 by {
            if i > 0 {
                assert(words_from(text, from)[i] == later[i - 1]);
            }
        }
    }
}

/// Splits a text into its words.
pub fn split_words(text: &str) -> (list: Vec<String>)
    ensures
        texts(list@) == words(text@),
{
    let chars = chars_of(text);
    let mut list: Vec<String> = Vec::new();
    let mut position: usize = 0;
    loop
        invariant
            chars@ == text@,
            position <= chars@.len(),
            texts(list@) + words_from(text@, position as int) == words(text@),
        decreases chars@.len() - position,
    {
        let mut start = position;
        while start < chars.len() && is_space(chars[start])
            invariant
                position <= start <= chars@.len(),
                word_start(chars@, start as int) == word_start(chars@, position as int),
            decreases chars@.len() - start,
        {
            start = start + 1;
        }
        if start >= chars.len() {
            proof {
                assert(texts(list@) + Seq::<Seq<char>>::empty() =~= texts(list@));
            }
            return list;
        }
        let mut end = start;
        while end < chars.len() && !is_space(chars[end])
            invariant
                start <= end <= chars@.len(),
                start < chars@.len(),
                !is_space_spec(chars@[start as int]),
                word_end(chars@, end as int) == word_end(chars@, start as int),
            decreases chars@.len() - end,
        {
            end = end + 1;
        }
        proof {
            lemma_word_end(chars@, start as int);
        }
        let word = String::from_str(text.substring_char(start, end));
        let ghost before = list@;
        list.push(word);
        proof {
            assert(texts(list@) =~= texts(before).push(word@));
            assert(texts(before).push(word@) + words_from(text@, end as int) =~= texts(
                before,
            ) + (seq![word@] + words_from(text@, end as int)));
        }
        position = end;
    }
}

/// Whether a character is a decimal digit.
pub open spec fn is_digit_spec(c: char) -> bool {
    0x30 <= c as u32 <= 0x39
}

/// Whether a character is a decimal digit.
pub fn is_digit(c: char) -> (answer: bool)
    ensures
        answer == is_digit_spec(c),
{
    let code = c as u32;
    0x30 <= code && code <= 0x39
}

/// The first position at or after `from` that holds no digit, or the length
/// of the text.
pub open spec fn digits_end(text: Seq<char>, from: int) -> int
    decreases text.len() - from,
{
    if 0 <= from < text.len() && is_digit_spec(text[from]) {
        digits_end(text, from + 1)
    } else {
        from
    }
}

/// The number that a run of decimal digits writes.
pub open spec fn number(digits: Seq<char>) -> nat
    decreases digits.len(),
{
    if digits.len() == 0 {
        0
    } else {
        number(digits.drop_last()) * 10 + (digits.last() as u32 - 0x30) as nat
    }
}

/// The values of a `for` loop: words, or a range of integers.
#[derive(Debug, PartialEq, Eq)]
pub enum ForExpression {
    Normal(String),
    Range(usize, usize),
}

/// The values of a `for` loop as plain values.
pub enum ForExpressionView {
    Normal(Seq<char>),
    Range(nat, nat),
}

impl View for ForExpression {
    type V = ForExpressionView;

    open spec fn view(&self) -> ForExpressionView {
        match *self {
            ForExpression::Normal(text) => ForExpressionView::Normal(text@),
            ForExpression::Range(start, end) => ForExpressionView::Range(start as nat, end as nat),
        }
    }
}

/// What an expanded value expression means. It is a range where it reads
/// digits, two dots, digits, and both numbers fit the machine's word; the
/// range starts at the first number and ends before the second. Any other
/// text is a list of words.
pub open spec fn for_expression_spec(text: Seq<char>) -> ForExpressionView {
    let split = digits_end(text, 0);
    let first = text.subrange(0, split);
    let second = text.subrange(split + 2, text.len() as int);
    if 0 < split && split + 2 < text.len() && text[split] == '.' && text[split + 1] == '.'
        && digits_end(text, split + 2) == text.len() && number(first) <= usize::MAX && number(
        second,
    ) <= usize::MAX {
        ForExpressionView::Range(number(first), number(second))
    } else {
        ForExpressionView::Normal(text)
    }
}

/// Where a run of digits ends.
pub proof fn lemma_digits_end(text: Seq<char>, from: int)
    requires
        0 <= from <= text.len(),
    ensures
        from <= digits_end(text, from) <= text.len(),
        forall|i: int| from <= i < digits_end(text, from) ==> is_digit_spec(text[i]),
        digits_end(text, from) < text.len() ==> !is_digit_spec(text[digits_end(text, from)]),
    decreases text.len() - from,
{
    if from < text.len() && is_digit_spec(text[from]) {
        lemma_digits_end(text, from + 1);
    }
}

/// Reads the number that the digits of `chars` from `from` up to `to` write,
/// if it fits the machine's word.
fn read_number(chars: &Vec<char>, from: usize, to: usize) -> (value: Option<usize>)
    requires
        from <= to <= chars@.len(),
        forall|i: int| from <= i < to ==> is_digit_spec(chars@[i]),
    ensures
        match value {
            Some(n) => n == number(chars@.subrange(from as int, to as int)),
            None => number(chars@.subrange(from as int, to as int)) > usize::MAX,
        },
{
    let mut n: usize = 0;
    let mut i: usize = from;
    while i < to
        invariant
            from <= i <= to <= chars@.len(),
            forall|k: int| from <= k < to ==> is_digit_spec(chars@[k]),
            n == number(chars@.subrange(from as int, i as int)),
        decreases to - i,
    {
        let digit = (chars[i] as u32 - 0x30) as usize;
        proof {
            assert(chars@.subrange(from as int, i + 1).drop_last() =~= chars@.subrange(
                from as int,
                i as int,
            ));
        }
        let next = match n.checked_mul(10) {
            Some(tens) => tens.checked_add(digit),
            None => None,
        };
        match next {
            Some(m) => {
                n = m;
            },
            None => {
                proof {
                    lemma_number_grows(
                        chars@.subrange(from as int, to as int),
                        i + 1 - from,
                    );
                    assert(chars@.subrange(from as int, to as int).take(i + 1 - from)
                        =~= chars@.subrange(from as int, i + 1));
                }
                return None;
            },
        }
        i = i + 1;
    }
    Some(n)
}

/// The number that a run of digits writes is no less than the number that
/// its beginning writes.
pub proof fn lemma_number_grows(digits: Seq<char>, n: int)
    requires
        0 <= n <= digits.len(),
        forall|i: int| 0 <= i < digits.len() ==> is_digit_spec(digits[i]),
    ensures
        number(digits.take(n)) <= number(digits),
    decreases digits.len(),
{
    if n == digits.len() {
        assert(digits.take(n) =~= digits);
    } else {
        lemma_number_grows(digits.drop_last(), n);
        assert(digits.drop_last().take(n) =~= digits.take(n));
    }
}

impl ForExpression {
    /// Reads an expanded value expression.
    pub fn new(expression: &str) -> (values: ForExpression)
        ensures
            values@ == for_expression_spec(expression@),
    {
        let chars = chars_of(expression);
        let mut split: usize = 0;
        while split < chars.len() && is_digit(chars[split])
            invariant
                split <= chars@.len(),
                digits_end(chars@, split as int) == digits_end(chars@, 0),
            decreases chars@.len() - split,
        {
            split = split + 1;
        }
        proof {
            lemma_digits_end(chars@, 0);
        }
        if split == 0 || chars.len() - split <= 2 || chars[split] != '.' || chars[split + 1] != '.' {
            return ForExpression::Normal(String::from_str(expression));
        }
        let mut end: usize = split + 2;
        while end < chars.len() && is_digit(chars[end])
            invariant
                split + 2 <= end <= chars@.len(),
                digits_end(chars@, end as int) == digits_end(chars@, split + 2),
            decreases chars@.len() - end,
        {
            end = end + 1;
        }
        proof {
            lemma_digits_end(chars@, split + 2);
        }
        if end != chars.len() {
            return ForExpression::Normal(String::from_str(expression));
        }
        match (read_number(&chars, 0, split), read_number(&chars, split + 2, end)) {
            (Some(first), Some(second)) => ForExpression::Range(first, second),
            _ => ForExpression::Normal(String::from_str(expression)),
        }
    }
}

/// The character that writes a digit.
pub open spec fn digit_char(digit: nat) -> char {
    if digit == 0 {
        '0'
    } else if digit == 1 {
        '1'
    } else if digit == 2 {
        '2'
    } else if digit == 3 {
        '3'
    } else if digit == 4 {
        '4'
    } else if digit == 5 {
        '5'
    } else if digit == 6 {
        '6'
    } else if digit == 7 {
        '7'
    } else if digit == 8 {
        '8'
    } else {
        '9'
    }
}

/// A number written in decimal digits, without leading zeros.
pub open spec fn decimal(n: nat) -> Seq<char>
    decreases n,
{
    if n < 10 {
        seq![digit_char(n)]
    } else {
        decimal(n / 10).push(digit_char(n % 10))
    }
}

/// The text of one digit.
fn digit_text(digit: usize) -> (text: &'static str)
    requires
        digit < 10,
    ensures
        text@ == seq![digit_char(digit as nat)],
{
    proof {
        reveal_strlit("0");
        reveal_strlit("1");
        reveal_strlit("2");
        reveal_strlit("3");
        reveal_strlit("4");
        reveal_strlit("5");
        reveal_strlit("6");
        reveal_strlit("7");
        reveal_strlit("8");
        reveal_strlit("9");
    }
    let text = if digit == 0 {
        "0"
    } else if digit == 1 {
        "1"
    } else if digit == 2 {
        "2"
    } else if digit == 3 {
        "3"
    } else if digit == 4 {
        "4"
    } else if digit == 5 {
        "5"
    } else if digit == 6 {
        "6"
    } else if digit == 7 {
        "7"
    } else if digit == 8 {
        "8"
    } else {
        "9"
    };
    assert(text@ =~= seq![digit_char(digit as nat)]);
    text
}

/// Writes a number in decimal digits.
pub fn decimal_string(n: usize) -> (text: String)
    ensures
        text@ == decimal(n as nat),
    decreases n,
{
    if n < 10 {
        String::from_str(digit_text(n))
    } else {
        let mut text = decimal_string(n / 10);
        text.append(digit_text(n % 10));
        assert(text@ =~= decimal(n as nat));
        text
    }
}

/// The integers from `start` up to but not including `end`, each written in
/// decimal digits.
pub open spec fn range_values(start: nat, end: nat) -> Seq<Seq<char>> {
    Seq::new(
        if start < end {
            (end - start) as nat
        } else {
            0
        },
        |i: int| decimal((start + i) as nat),
    )
}

/// A number written in decimal digits has at least one digit.
pub proof fn lemma_decimal_is_written(n: nat)
    ensures
        decimal(n).len() >= 1,
        n >= 10 ==> decimal(n).len() >= 2,
    decreases n,
{
    if n >= 10 {
        lemma_decimal_is_written(n / 10);
    }
}

/// Different numbers are written differently.
pub proof fn lemma_decimal_tells_numbers_apart(a: nat, b: nat)
    requires
        decimal(a) == decimal(b),
    ensures
        a == b,
    decreases a,
{
    lemma_decimal_is_written(a);
    lemma_decimal_is_written(b);
    if a < 10 {
        assert(decimal(a)[0] == digit_char(a));
        assert(decimal(b)[0] == digit_char(b));
    } else {
        assert(decimal(a).last() == digit_char(a % 10));
        assert(decimal(b).last() == digit_char(b % 10));
        assert(decimal(a).drop_last() =~= decimal(a / 10));
        assert(decimal(b).drop_last() =~= decimal(b / 10));
        lemma_decimal_tells_numbers_apart(a / 10, b / 10);
    }
}

/// What is written in decimal digits is all digits, and reads as the number
/// that was written.
pub proof fn lemma_decimal_reads_back(n: nat)
    ensures
        number(decimal(n)) == n,
        forall|i: int| 0 <= i < decimal(n).len() ==> is_digit_spec(#[trigger] decimal(n)[i]),
    decreases n,
{
    if n < 10 {
        assert(decimal(n).drop_last() =~= Seq::<char>::empty());
        assert(number(decimal(n).drop_last()) == 0);
        assert(decimal(n).last() == digit_char(n));
    } else {
        lemma_decimal_reads_back(n / 10);
        assert(decimal(n).drop_last() =~= decimal(n / 10));
        assert(decimal(n).last() == digit_char(n % 10));
    }
}

/// A run of digits ends where the first character that is no digit stands, or
/// at the end of the text.
pub proof fn lemma_digits_run(text: Seq<char>, from: int, to: int)
    requires
        0 <= from <= to <= text.len(),
        forall|i: int| from <= i < to ==> is_digit_spec(text[i]),
        to < text.len() ==> !is_digit_spec(text[to]),
    ensures
        digits_end(text, from) == to,
    decreases to - from,
{
    if from < to {
        lemma_digits_run(text, from + 1, to);
    }
}

/// Two numbers that fit the machine's word, written in decimal digits with
/// two dots between them, read as the range from the first to the second.
pub proof fn lemma_written_range_reads_back(start: nat, end: nat)
    requires
        start <= usize::MAX,
        end <= usize::MAX,
    ensures
        for_expression_spec(decimal(start) + seq!['.', '.'] + decimal(end))
            == ForExpressionView::Range(start, end),
{
    let first = decimal(start);
    let second = decimal(end);
    let text = first + seq!['.', '.'] + second;
    lemma_decimal_reads_back(start);
    lemma_decimal_reads_back(end);
    lemma_decimal_is_written(start);
    lemma_decimal_is_written(end);
    let split = first.len() as int;
    assert forall|i: int| 0 <= i < split implies is_digit_spec(text[i]) by {
        assert(text[i] == first[i]);
    }
    assert(text[split] == '.');
    assert(text[split + 1] == '.');
    lemma_digits_run(text, 0, split);
    assert forall|i: int| split + 2 <= i < text.len() implies is_digit_spec(text[i]) by {
        assert(text[i] == second[i - split - 2]);
    }
    lemma_digits_run(text, split + 2, text.len() as int);
    assert(text.subrange(0, split) =~= first);
    assert(text.subrange(split + 2, text.len() as int) =~= second);
}

/// A range is half open: its values are the integers from its start on, in
/// order, and its end is not among them.
pub proof fn lemma_range_is_half_open(start: nat, end: nat)
    ensures
        range_values(start, end).len() == if start < end {
            end - start
        } else {
            0
        },
        forall|i: int|
            0 <= i < range_values(start, end).len() ==> #[trigger] range_values(start, end)[i]
                == decimal((start + i) as nat),
        forall|i: int|
            0 <= i < range_values(start, end).len() ==> #[trigger] range_values(start, end)[i]
                != decimal(end),
{
    assert forall|i: int| 0 <= i < range_values(start, end).len() implies #[trigger] range_values(
        start,
        end,
    )[i] != decimal(end) by {
        if range_values(start, end)[i] == decimal(end) {
            lemma_decimal_tells_numbers_apart((start + i) as nat, end);
        }
    }
}

/// The values that a `for` loop runs over, in order.
pub open spec fn values_spec(expression: ForExpressionView) -> Seq<Seq<char>> {
    match expression {
        ForExpressionView::Normal(text) => words(text),
        ForExpressionView::Range(start, end) => range_values(start, end),
    }
}

/// The values that a `for` loop has still to run over.
#[derive(Debug, PartialEq, Eq)]
pub enum ForValues {
    Words(VecDeque<String>),
    Range(usize, usize),
}

impl View for ForValues {
    type V = Seq<Seq<char>>;

    open spec fn view(&self) -> Seq<Seq<char>> {
        match *self {
            ForValues::Words(list) => texts(list@),
            ForValues::Range(start, end) => range_values(start as nat, end as nat),
        }
    }
}

impl ForValues {
    /// No values.
    pub fn empty() -> (values: ForValues)
        ensures
            values@ == Seq::<Seq<char>>::empty(),
    {
        let values = ForValues::Range(0, 0);
        assert(values@ =~= Seq::<Seq<char>>::empty());
        values
    }

    /// The values of a value expression.
    pub fn new(expression: ForExpression) -> (values: ForValues)
        ensures
            values@ == values_spec(expression@),
    {
        match expression {
            ForExpression::Normal(text) => {
                let mut list = split_words(text.as_str());
                let mut queue: VecDeque<String> = VecDeque::new();
                let mut i: usize = 0;
                while i < list.len()
                    invariant
                        i <= list@.len(),
                        queue@.len() == i,
                        forall|k: int| 0 <= k < i ==> queue@[k]@ == list@[k]@,
                    decreases list@.len() - i,
                {
                    queue.push_back(list[i].clone());
                    i = i + 1;
                }
                assert(texts(queue@) =~= texts(list@));
                ForValues::Words(queue)
            },
            ForExpression::Range(start, end) => ForValues::Range(start, end),
        }
    }

    /// Takes the next value, if one is left.
    pub fn next(&mut self) -> (value: Option<String>)
        ensures
            match value {
                Some(text) => {
                    &&& old(self)@.len() > 0
                    &&& text@ == old(self)@[0]
                    &&& final(self)@ == old(self)@.drop_first()
                },
                None => old(self)@.len() == 0 && final(self)@ == old(self)@,
            },
    {
        match self {
            ForValues::Words(list) => {
                let ghost before = list@;
                let value = list.pop_front();
                proof {
                    if before.len() > 0 {
                        assert(texts(before.subrange(1, before.len() as int)) =~= texts(
                            before,
                        ).drop_first());
                    }
                }
                value
            },
            ForValues::Range(start, end) => {
                if *start < *end {
                    let value = decimal_string(*start);
                    let ghost before = range_values(*start as nat, *end as nat);
                    *start = *start + 1;
                    assert(range_values(*start as nat, *end as nat) =~= before.drop_first());
                    Some(value)
                } else {
                    None
                }
            },
        }
    }
}

} // verus!
