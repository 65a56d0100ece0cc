//! The lexical structure of a text: what is skipped between tokens, where a
//! token that begins at a given position ends, and which token it is. Where a
//! word begins and how far it reaches depends on the classes of the
//! characters, which are given beside the text, one for each position.

use vstd::prelude::*;
use crate::classes::CharClass;
use crate::token::{LogicalOperator, TokenView, Word};

verus! {

/// Space, tab and newline.
pub open spec fn is_space(c: char) -> bool {
    c == ' ' || c == '\t' || c == '\n'
}

/// The ten decimal digits.
pub open spec fn is_digit(c: char) -> bool {
    '0' <= c <= '9'
}

/// The value of a decimal digit.
pub open spec fn digit_value(c: char) -> nat
    recommends
        is_digit(c),
{
    (c as int - '0' as int) as nat
}

/// A character continues a word: it is classed as alphanumeric, or it is an
/// underscore.
pub open spec fn is_word_char(c: char, class: CharClass) -> bool {
    class.alphanumeric || c == '_'
}

/// The characters of `pattern` stand in `s` from position `i` on.
pub open spec fn has_at(s: Seq<char>, i: int, pattern: Seq<char>) -> bool {
    0 <= i && i + pattern.len() <= s.len() && s.subrange(i, i + pattern.len()) == pattern
}

/// `//`, which opens a comment that runs to the end of the line.
pub open spec fn line_comment_opener() -> Seq<char> {
    seq!['/', '/']
}

/// `/*`, which opens a comment that runs to the next `*/`.
pub open spec fn block_comment_opener() -> Seq<char> {
    seq!['/', '*']
}

/// `*/`.
pub open spec fn block_comment_closer() -> Seq<char> {
    seq!['*', '/']
}

/// The position behind the first newline at or after `from`, or the length of
/// `s` where no newline follows.
pub open spec fn line_comment_end(s: Seq<char>, from: int) -> int
    decreases s.len() - from,
{
    if from < 0 || from >= s.len() {
        s.len() as int
    } else if s[from] == '\n' {
        from + 1
    } else {
        line_comment_end(s, from + 1)
    }
}

/// The position behind the first `*/` that begins at or after `from`, or the
/// length of `s` where none follows.
pub open spec fn block_comment_end(s: Seq<char>, from: int) -> int
    decreases s.len() - from,
{
    if from < 0 || from >= s.len() {
        s.len() as int
    } else if has_at(s, from, block_comment_closer()) {
        from + 2
    } else {
        block_comment_end(s, from + 1)
    }
}

/// Position `k` of `s` holds neither white space nor the start of a comment.
pub open spec fn is_kept(s: Seq<char>, k: int) -> bool {
    &&& !is_space(s[k])
    &&& !has_at(s, k, line_comment_opener())
    &&& !has_at(s, k, block_comment_opener())
}

/// The first position at or after `i` that is neither white space nor inside
/// a comment, or the length of `s` where nothing else is left. Comments do
/// not nest, and one that is not closed runs to the end of the text.
pub open spec fn trivia_end(s: Seq<char>, i: int) -> int
    decreases s.len() - i,
{
    if i < 0 || i >= s.len() {
        s.len() as int
    } else if is_space(s[i]) {
        trivia_end(s, i + 1)
    } else if has_at(s, i, line_comment_opener()) {
        proof {
            lemma_line_comment_end_bounds(s, i + 2);
        }
        trivia_end(s, line_comment_end(s, i + 2))
    } else if has_at(s, i, block_comment_opener()) {
        proof {
            lemma_block_comment_end_bounds(s, i + 2);
        }
        trivia_end(s, block_comment_end(s, i + 2))
    } else {
        i
    }
}

/// Where the run of digits that begins at `from` ends.
pub open spec fn digits_end(s: Seq<char>, from: int) -> int
    decreases s.len() - from,
{
    if 0 <= from < s.len() && is_digit(s[from]) {
        digits_end(s, from + 1)
    } else {
        from
    }
}

/// Where the run of word characters that begins at `from` ends.
pub open spec fn word_end(s: Seq<char>, classes: Seq<CharClass>, from: int) -> int
    decreases s.len() - from,
{
    if 0 <= from < s.len() && is_word_char(s[from], classes[from]) {
        word_end(s, classes, from + 1)
    } else {
        from
    }
}

/// A number begins at `i`: with a digit, or with a point that a digit
/// follows.
pub open spec fn starts_number(s: Seq<char>, i: int) -> bool {
    0 <= i < s.len() && (is_digit(s[i]) || (s[i] == '.' && i + 1 < s.len() && is_digit(s[i + 1])))
}

/// The number that begins at `i` has a decimal point: its leading digits, of
/// which there may be none, are followed by one.
pub open spec fn has_point(s: Seq<char>, i: int) -> bool {
    digits_end(s, i) < s.len() && s[digits_end(s, i)] == '.'
}

/// Where the number that begins at `i` ends: behind its leading digits and,
/// if a point follows them, behind the point and the digits after it. A
/// second point is no part of the number.
pub open spec fn number_end(s: Seq<char>, i: int) -> int {
    if has_point(s, i) {
        digits_end(s, digits_end(s, i) + 1)
    } else {
        digits_end(s, i)
    }
}

/// The number that a string of digits writes in base ten; 0 for no digits.
pub open spec fn decimal_value(digits: Seq<char>) -> nat
    decreases digits.len(),
{
    if digits.len() == 0 {
        0
    } else {
        decimal_value(digits.drop_last()) * 10 + digit_value(digits.last())
    }
}

/// A value as 32 bits hold it: what is beyond them is lost.
pub open spec fn stored(value: nat) -> u32 {
    (value % 0x1_0000_0000) as u32
}

/// The token of the number that begins at `i`: the value of the digits before
/// the point and the value of the digits behind it, each by itself. Zeros
/// that lead the digits behind the point do not show in their value.
pub open spec fn number_token(s: Seq<char>, i: int) -> TokenView {
    let point = digits_end(s, i);
    if has_point(s, i) {
        TokenView::Number(
            stored(decimal_value(s.subrange(i, point))),
            stored(decimal_value(s.subrange(point + 1, number_end(s, i)))),
        )
    } else {
        TokenView::Number(stored(decimal_value(s.subrange(i, point))), 0)
    }
}

/// The word `true`.
pub open spec fn true_text() -> Seq<char> {
    seq!['t', 'r', 'u', 'e']
}

/// The word `false`.
pub open spec fn false_text() -> Seq<char> {
    seq!['f', 'a', 'l', 's', 'e']
}

/// The class of a word: one of the two keywords, or an identifier.
pub open spec fn classify(text: Seq<char>) -> Word {
    if text == true_text() {
        Word::True
    } else if text == false_text() {
        Word::False
    } else {
        Word::Identifier
    }
}

/// The token of a word with the given text.
pub open spec fn word_of(text: Seq<char>) -> TokenView {
    TokenView::Word(classify(text), text)
}

/// The token of the word that begins at `i`: the character at `i` and every
/// word character that follows it.
pub open spec fn word_token(s: Seq<char>, classes: Seq<CharClass>, i: int) -> TokenView {
    word_of(s.subrange(i, word_end(s, classes, i + 1)))
}

/// The token of an operator.
pub open spec fn operator_token(operator: LogicalOperator) -> TokenView {
    TokenView::LogicalOperator(operator, operator_text(operator))
}

/// How an operator is written.
pub open spec fn operator_text(operator: LogicalOperator) -> Seq<char> {
    match operator {
        LogicalOperator::Less => seq!['<'],
        LogicalOperator::LessOrEqual => seq!['<', '='],
        LogicalOperator::Equal => seq!['=', '='],
        LogicalOperator::Different => seq!['!', '='],
        LogicalOperator::Greater => seq!['>'],
        LogicalOperator::GreaterOrEqual => seq!['>', '='],
    }
}

/// The operator that stands at `i`, if one does. Those of two characters are
/// looked for first, so that `<=` is never read as `<`.
pub open spec fn operator_at(s: Seq<char>, i: int) -> Option<LogicalOperator> {
    if has_at(s, i, operator_text(LogicalOperator::LessOrEqual)) {
        Some(LogicalOperator::LessOrEqual)
    } else if has_at(s, i, operator_text(LogicalOperator::Equal)) {
        Some(LogicalOperator::Equal)
    } else if has_at(s, i, operator_text(LogicalOperator::Different)) {
        Some(LogicalOperator::Different)
    } else if has_at(s, i, operator_text(LogicalOperator::GreaterOrEqual)) {
        Some(LogicalOperator::GreaterOrEqual)
    } else if has_at(s, i, operator_text(LogicalOperator::Less)) {
        Some(LogicalOperator::Less)
    } else if has_at(s, i, operator_text(LogicalOperator::Greater)) {
        Some(LogicalOperator::Greater)
    } else {
        None
    }
}

/// The token that begins at `i`, a position that holds neither white space
/// nor the start of a comment. The first rule that applies decides: number,
/// word (where the character is classed as alphabetic), operator, and a
/// single unknown character where none does.
pub open spec fn token_at(s: Seq<char>, classes: Seq<CharClass>, i: int) -> TokenView {
    if starts_number(s, i) {
        number_token(s, i)
    } else if classes[i].alphabetic {
        word_token(s, classes, i)
    } else if let Some(operator) = operator_at(s, i) {
        operator_token(operator)
    } else {
        TokenView::Unknown(seq![s[i]])
    }
}

/// Where the token that begins at `i` ends.
pub open spec fn token_end(s: Seq<char>, classes: Seq<CharClass>, i: int) -> int {
    if starts_number(s, i) {
        number_end(s, i)
    } else if classes[i].alphabetic {
        word_end(s, classes, i + 1)
    } else if let Some(operator) = operator_at(s, i) {
        i + operator_text(operator).len()
    } else {
        i + 1
    }
}

/// The tokens of `s` from position `i` on: what is skipped is skipped, the
/// token that follows is taken as far as it reaches, and so on to the end of
/// the text.
pub open spec fn tokens_from(s: Seq<char>, classes: Seq<CharClass>, i: int) -> Seq<TokenView>
    decreases s.len() - i,
{
    let start = trivia_end(s, i);
    if 0 <= i && start < s.len() {
        proof {
            lemma_trivia_end_bounds(s, i);
            lemma_token_end_bounds(s, classes, start);
        }
        seq![token_at(s, classes, start)] + tokens_from(s, classes, token_end(s, classes, start))
    } else {
        Seq::empty()
    }
}

/// A line comment ends within the text, behind where it was looked for.
pub proof fn lemma_line_comment_end_bounds(s: Seq<char>, from: int)
    requires
        0 <= from <= s.len(),
    ensures
        from <= line_comment_end(s, from) <= s.len(),
    decreases s.len() - from,
{
    if from < s.len() && s[from] != '\n' {
        lemma_line_comment_end_bounds(s, from + 1);
    }
}

/// A block comment ends within the text, behind where it was looked for.
pub proof fn lemma_block_comment_end_bounds(s: Seq<char>, from: int)
    requires
        0 <= from <= s.len(),
    ensures
        from <= block_comment_end(s, from) <= s.len(),
    decreases s.len() - from,
{
    if from < s.len() && !has_at(s, from, block_comment_closer()) {
        lemma_block_comment_end_bounds(s, from + 1);
    }
}

/// Skipping ends within the text, at or behind where it began, on a
/// character that is neither white space nor the start of a comment.
pub proof fn lemma_trivia_end_bounds(s: Seq<char>, i: int)
    requires
        0 <= i <= s.len(),
    ensures
        i <= trivia_end(s, i) <= s.len(),
        trivia_end(s, i) < s.len() ==> is_kept(s, trivia_end(s, i)),
        trivia_end(s, trivia_end(s, i)) == trivia_end(s, i),
    decreases s.len() - i,
{
    if i >= s.len() {
    } else if is_space(s[i]) {
        lemma_trivia_end_bounds(s, i + 1);
    } else if has_at(s, i, line_comment_opener()) {
        lemma_line_comment_end_bounds(s, i + 2);
        lemma_trivia_end_bounds(s, line_comment_end(s, i + 2));
    } else if has_at(s, i, block_comment_opener()) {
        lemma_block_comment_end_bounds(s, i + 2);
        lemma_trivia_end_bounds(s, block_comment_end(s, i + 2));
    }
}

/// A run of digits lies within the text, holds digits only, and ends at the
/// first character that is none.
pub proof fn lemma_digits_end(s: Seq<char>, from: int)
    requires
        0 <= from <= s.len(),
    ensures
        from <= digits_end(s, from) <= s.len(),
        forall|k: int| from <= k < digits_end(s, from) ==> is_digit(s[k]),
        digits_end(s, from) < s.len() ==> !is_digit(s[digits_end(s, from)]),
    decreases s.len() - from,
{
    if from < s.len() && is_digit(s[from]) {
        lemma_digits_end(s, from + 1);
    }
}

/// A stretch of digits that ends at a character that is none, or at the end
/// of the text, is the run of digits.
pub proof fn lemma_digits_end_is(s: Seq<char>, from: int, end: int)
    requires
        0 <= from <= end <= s.len(),
        forall|k: int| from <= k < end ==> is_digit(s[k]),
        end < s.len() ==> !is_digit(s[end]),
    ensures
        digits_end(s, from) == end,
    decreases end - from,
{
    if from < end {
        lemma_digits_end_is(s, from + 1, end);
    }
}

/// A run of word characters lies within the text, holds word characters
/// only, and ends at the first character that is none.
pub proof fn lemma_word_end(s: Seq<char>, classes: Seq<CharClass>, from: int)
    requires
        0 <= from <= s.len(),
    ensures
        from <= word_end(s, classes, from) <= s.len(),
        forall|k: int| from <= k < word_end(s, classes, from) ==> is_word_char(s[k], classes[k]),
        word_end(s, classes, from) < s.len() ==> !is_word_char(
            s[word_end(s, classes, from)],
            classes[word_end(s, classes, from)],
        ),
    decreases s.len() - from,
{
    if from < s.len() && is_word_char(s[from], classes[from]) {
        lemma_word_end(s, classes, from + 1);
    }
}

/// A stretch of word characters that ends at a character that is none, or at
/// the end of the text, is the run of word characters.
pub proof fn lemma_word_end_is(s: Seq<char>, classes: Seq<CharClass>, from: int, end: int)
    requires
        0 <= from <= end <= s.len(),
        forall|k: int| from <= k < end ==> is_word_char(s[k], classes[k]),
        end < s.len() ==> !is_word_char(s[end], classes[end]),
    ensures
        word_end(s, classes, from) == end,
    decreases end - from,
{
    if from < end {
        lemma_word_end_is(s, classes, from + 1, end);
    }
}

/// A number is not empty and lies within the text.
pub proof fn lemma_number_end_bounds(s: Seq<char>, i: int)
    requires
        starts_number(s, i),
    ensures
        i < number_end(s, i) <= s.len(),
{
    lemma_digits_end(s, i);
    if has_point(s, i) {
        lemma_digits_end(s, digits_end(s, i) + 1);
    }
}

/// A token is not empty and lies within the text.
pub proof fn lemma_token_end_bounds(s: Seq<char>, classes: Seq<CharClass>, i: int)
    requires
        0 <= i < s.len(),
    ensures
        i < token_end(s, classes, i) <= s.len(),
{
    if starts_number(s, i) {
        lemma_number_end_bounds(s, i);
    } else if classes[i].alphabetic {
        lemma_word_end(s, classes, i + 1);
    }
}

/// One more digit at the end multiplies the value by ten and adds the digit.
pub proof fn lemma_decimal_value_push(digits: Seq<char>, c: char)
    ensures
        decimal_value(digits.push(c)) == decimal_value(digits) * 10 + digit_value(c),
{
    assert(digits.push(c).drop_last() =~= digits);
}

} // verus!
