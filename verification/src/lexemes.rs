//! What the tokens of a text keep of it: the stretches that they were read
//! from make up, in order, all of the text that is neither white space nor
//! comment.

use vstd::prelude::*;
use crate::classes::CharClass;
use crate::lexis::{
    block_comment_end, block_comment_opener, classify, digits_end, has_at, has_point, is_digit,
    is_kept, is_space, is_word_char, lemma_block_comment_end_bounds, lemma_digits_end,
    lemma_line_comment_end_bounds, lemma_token_end_bounds, lemma_trivia_end_bounds,
    lemma_word_end, line_comment_end, line_comment_opener, operator_at, operator_text,
    starts_number, token_end, tokens_from, trivia_end,
};
use crate::token::{TokenView, Word};

verus! {

/// The stretches of `s` that the tokens from position `i` on were read from,
/// in order.
pub open spec fn lexemes_from(s: Seq<char>, classes: Seq<CharClass>, i: int) -> Seq<Seq<char>>
    decreases s.len() - i,
{
    let start = trivia_end(s, i);
    if 0 <= i && start < s.len() {
        proof {
            lemma_trivia_end_bounds(s, i);
            lemma_token_end_bounds(s, classes, start);
        }
        let end = token_end(s, classes, start);
        seq![s.subrange(start, end)] + lexemes_from(s, classes, end)
    } else {
        Seq::empty()
    }
}

/// The characters of `s` from position `i` on that are neither white space
/// nor part of a comment, in order. This reads the text character by
/// character and knows nothing of tokens or classes.
pub open spec fn significant_from(s: Seq<char>, i: int) -> Seq<char>
    decreases s.len() - i,
{
    if i < 0 || i >= s.len() {
        Seq::empty()
    } else if is_space(s[i]) {
        significant_from(s, i + 1)
    } else if has_at(s, i, line_comment_opener()) {
        proof {
            lemma_line_comment_end_bounds(s, i + 2);
        }
        significant_from(s, line_comment_end(s, i + 2))
    } else if has_at(s, i, block_comment_opener()) {
        proof {
            lemma_block_comment_end_bounds(s, i + 2);
        }
        significant_from(s, block_comment_end(s, i + 2))
    } else {
        seq![s[i]] + significant_from(s, i + 1)
    }
}

/// The text that a token carries; a number carries none.
pub open spec fn text_of(token: TokenView) -> Option<Seq<char>> {
    match token {
        TokenView::Word(_, text) => Some(text),
        TokenView::LogicalOperator(_, text) => Some(text),
        TokenView::Unknown(text) => Some(text),
        TokenView::Number(_, _) => None,
        TokenView::Epsilon => None,
    }
}

/// No character of `s` is classed as a word character and is white space or
/// a slash as well.
pub open spec fn words_hold_no_trivia(s: Seq<char>, classes: Seq<CharClass>) -> bool {
    forall|k: int|
        0 <= k < s.len() && is_word_char(#[trigger] s[k], classes[k]) ==> !is_space(s[k]) && s[k]
            != '/'
}

/// A token that carries text carries `lexeme`.
pub open spec fn carries(token: TokenView, lexeme: Seq<char>) -> bool {
    text_of(token) matches Some(text) ==> text == lexeme
}

/// A word has the class of its text: it is a keyword exactly when its text
/// is that keyword.
pub open spec fn is_classed(token: TokenView) -> bool {
    token matches TokenView::Word(class, text) ==> class == classify(text)
}

/// There is a lexeme for every token, and a token that carries text carries
/// its lexeme.
pub proof fn lemma_tokens_carry_their_lexemes(s: Seq<char>, classes: Seq<CharClass>, i: int)
    requires
        0 <= i <= s.len(),
    ensures
        tokens_from(s, classes, i).len() == lexemes_from(s, classes, i).len(),
        forall|k: int|
            0 <= k < tokens_from(s, classes, i).len() ==> carries(
                #[trigger] tokens_from(s, classes, i)[k],
                lexemes_from(s, classes, i)[k],
            ),
    decreases s.len() - i,
{
    let start = trivia_end(s, i);
    lemma_trivia_end_bounds(s, i);
    if start < s.len() {
        lemma_token_end_bounds(s, classes, start);
        let end = token_end(s, classes, start);
        lemma_tokens_carry_their_lexemes(s, classes, end);
        let tokens = tokens_from(s, classes, i);
        let lexemes = lexemes_from(s, classes, i);
        assert(carries(tokens[0], lexemes[0])) by {
            if starts_number(s, start) {
            } else if classes[start].alphabetic {
            } else if let Some(operator) = operator_at(s, start) {
            } else {
                assert(seq![s[start]] =~= s.subrange(start, end));
            }
        }
        assert forall|k: int| 0 <= k < tokens.len() implies carries(
            #[trigger] tokens[k],
            lexemes[k],
        ) by {
            if k > 0 {
                assert(tokens[k] == tokens_from(s, classes, end)[k - 1]);
                assert(lexemes[k] == lexemes_from(s, classes, end)[k - 1]);
            }
        }
    }
}

/// Every word among the tokens has the class of its text: `true` and `false`
/// are keywords wherever they stand and however often, and no other word is
/// one.
pub proof fn lemma_words_keep_their_class(s: Seq<char>, classes: Seq<CharClass>, i: int)
    requires
        0 <= i <= s.len(),
    ensures
        forall|k: int|
            0 <= k < tokens_from(s, classes, i).len() ==> is_classed(
                #[trigger] tokens_from(s, classes, i)[k],
            ),
    decreases s.len() - i,
{
    let start = trivia_end(s, i);
    lemma_trivia_end_bounds(s, i);
    if start < s.len() {
        lemma_token_end_bounds(s, classes, start);
        let end = token_end(s, classes, start);
        lemma_words_keep_their_class(s, classes, end);
        let tokens = tokens_from(s, classes, i);
        assert forall|k: int| 0 <= k < tokens.len() implies is_classed(#[trigger] tokens[k]) by {
            if k > 0 {
                assert(tokens[k] == tokens_from(s, classes, end)[k - 1]);
            }
        }
    }
}

/// The mark of the end of the text is none of the tokens.
pub proof fn lemma_end_is_no_token(s: Seq<char>, classes: Seq<CharClass>, i: int)
    requires
        0 <= i <= s.len(),
    ensures
        forall|k: int|
            0 <= k < tokens_from(s, classes, i).len() ==> #[trigger] tokens_from(s, classes, i)[k]
                != TokenView::Epsilon,
    decreases s.len() - i,
{
    let start = trivia_end(s, i);
    lemma_trivia_end_bounds(s, i);
    if start < s.len() {
        lemma_token_end_bounds(s, classes, start);
        let end = token_end(s, classes, start);
        lemma_end_is_no_token(s, classes, end);
        let tokens = tokens_from(s, classes, i);
        assert forall|k: int| 0 <= k < tokens.len() implies #[trigger] tokens[k]
            != TokenView::Epsilon by {
            if k > 0 {
                assert(tokens[k] == tokens_from(s, classes, end)[k - 1]);
            }
        }
    }
}

/// What is skipped between tokens adds nothing to the significant text.
pub proof fn lemma_significant_skips_trivia(s: Seq<char>, i: int)
    requires
        0 <= i <= s.len(),
    ensures
        significant_from(s, i) == significant_from(s, trivia_end(s, i)),
    decreases s.len() - i,
{
    if i >= s.len() {
    } else if is_space(s[i]) {
        lemma_significant_skips_trivia(s, i + 1);
    } else if has_at(s, i, line_comment_opener()) {
        lemma_line_comment_end_bounds(s, i + 2);
        lemma_significant_skips_trivia(s, line_comment_end(s, i + 2));
    } else if has_at(s, i, block_comment_opener()) {
        lemma_block_comment_end_bounds(s, i + 2);
        lemma_significant_skips_trivia(s, block_comment_end(s, i + 2));
    }
}

/// A stretch without white space and without the start of a comment belongs
/// to the significant text as it stands.
pub proof fn lemma_significant_keeps(s: Seq<char>, from: int, to: int)
    requires
        0 <= from <= to <= s.len(),
        forall|k: int| from <= k < to ==> is_kept(s, k),
    ensures
        significant_from(s, from) == s.subrange(from, to) + significant_from(s, to),
    decreases to - from,
{
    if from < to {
        assert(is_kept(s, from));
        lemma_significant_keeps(s, from + 1, to);
        assert(seq![s[from]] + (s.subrange(from + 1, to) + significant_from(s, to))
            =~= s.subrange(from, to) + significant_from(s, to));
    } else {
        assert(s.subrange(from, to) + significant_from(s, to) =~= significant_from(s, to));
    }
}

/// A character that is neither white space nor a slash is kept.
proof fn lemma_kept_character(s: Seq<char>, k: int)
    requires
        0 <= k < s.len(),
        !is_space(s[k]),
        s[k] != '/',
    ensures
        is_kept(s, k),
{
    if has_at(s, k, line_comment_opener()) {
        assert(s.subrange(k, k + 2)[0] == '/');
    }
    if has_at(s, k, block_comment_opener()) {
        assert(s.subrange(k, k + 2)[0] == '/');
    }
}

/// No token holds white space or the start of a comment.
pub proof fn lemma_lexeme_is_kept(s: Seq<char>, classes: Seq<CharClass>, start: int)
    requires
        0 <= start < s.len(),
        trivia_end(s, start) == start,
        words_hold_no_trivia(s, classes),
    ensures
        forall|k: int| start <= k < token_end(s, classes, start) ==> is_kept(s, k),
{
    lemma_trivia_end_bounds(s, start);
    lemma_token_end_bounds(s, classes, start);
    let end = token_end(s, classes, start);
    assert forall|k: int| start <= k < end implies is_kept(s, k) by {
        if k > start {
            if starts_number(s, start) {
                let point = digits_end(s, start);
                lemma_digits_end(s, start);
                if has_point(s, start) {
                    lemma_digits_end(s, point + 1);
                }
                assert(is_digit(s[k]) || s[k] == '.');
            } else if classes[start].alphabetic {
                lemma_word_end(s, classes, start + 1);
                assert(is_word_char(s[k], classes[k]));
            } else if let Some(operator) = operator_at(s, start) {
                assert(has_at(s, start, operator_text(operator)));
                assert(s.subrange(start, start + 2)[1] == '=');
            }
            lemma_kept_character(s, k);
        }
    }
}

/// The lexemes, one after the other, are the significant text: the scanner
/// loses no character, repeats none and keeps their order. This holds
/// wherever no character that is white space or a slash is classed as a word
/// character; a word would else reach over it.
pub proof fn lemma_lexemes_are_the_significant_text(
    s: Seq<char>,
    classes: Seq<CharClass>,
    i: int,
)
    requires
        0 <= i <= s.len(),
        words_hold_no_trivia(s, classes),
    ensures
        lexemes_from(s, classes, i).flatten() == significant_from(s, i),
    decreases s.len() - i,
{
    let start = trivia_end(s, i);
    lemma_trivia_end_bounds(s, i);
    lemma_significant_skips_trivia(s, i);
    if start < s.len() {
        lemma_token_end_bounds(s, classes, start);
        let end = token_end(s, classes, start);
        lemma_lexeme_is_kept(s, classes, start);
        lemma_significant_keeps(s, start, end);
        lemma_lexemes_are_the_significant_text(s, classes, end);
        let lexemes = lexemes_from(s, classes, i);
        assert(lexemes.first() == s.subrange(start, end));
        assert(lexemes.drop_first() =~= lexemes_from(s, classes, end));
    }
}

} // verus!
