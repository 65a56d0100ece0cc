//! Prefix expressions: the language of the grammar `S -> + S S | - S S | a`,
//! what a left-to-right reading of a text finds of it, and the verdict that
//! follows.

use vstd::prelude::*;
use crate::error::SyntaxError;

verus! {

/// `+` and `-`, which each take two operands.
pub open spec fn is_operator(c: char) -> bool {
    c == '+' || c == '-'
}

/// The characters that the grammar knows.
pub open spec fn is_symbol(c: char) -> bool {
    c == 'a' || is_operator(c)
}

/// `s` is derived from `S`: it is the leaf `a`, or an operator followed by
/// two expressions.
pub open spec fn is_expression(s: Seq<char>) -> bool
    decreases s.len(),
{
    ||| (s.len() == 1 && s[0] == 'a')
    ||| (s.len() >= 3 && is_operator(s[0]) && exists|mid: int|
        1 < mid < s.len() && is_expression(#[trigger] s.subrange(1, mid)) && is_expression(
            s.subrange(mid, s.len() as int),
        ))
}

/// Some stretch of `s` that begins at `start` is an expression.
pub open spec fn begins_with_expression(s: Seq<char>, start: int) -> bool {
    exists|end: int| start < end <= s.len() && is_expression(#[trigger] s.subrange(start, end))
}

/// Where the expression that begins at `start` ends. Meaningful where
/// `begins_with_expression` holds; there is then one such place only.
pub open spec fn expression_end(s: Seq<char>, start: int) -> int {
    choose|end: int| start < end <= s.len() && is_expression(#[trigger] s.subrange(start, end))
}

/// The first position at or after `from` that holds a character foreign to
/// the grammar, or the length of `s` where there is none.
pub open spec fn first_foreign(s: Seq<char>, from: int) -> int
    decreases s.len() - from,
{
    if from < 0 || from >= s.len() {
        s.len() as int
    } else if !is_symbol(s[from]) {
        from
    } else {
        first_foreign(s, from + 1)
    }
}

/// What a reading of `s` from `start` reports: success when the rest of the
/// text is one expression; left-over text when an expression ends before the
/// text does; otherwise the first foreign character, or, where every
/// character is known, that the text ran out.
pub open spec fn verdict(s: Seq<char>, start: int) -> Result<(), SyntaxError> {
    if is_expression(s.subrange(start, s.len() as int)) {
        Ok(())
    } else if begins_with_expression(s, start) {
        Err(SyntaxError::TrailingInput)
    } else if first_foreign(s, start) < s.len() {
        Err(SyntaxError::InvalidToken { position: first_foreign(s, start) as usize })
    } else {
        Err(SyntaxError::PrematureEnd)
    }
}

/// Where the reading stops: behind the expression where there is one, else on
/// the first foreign character or at the end of the text.
pub open spec fn resting_place(s: Seq<char>, start: int) -> int {
    if begins_with_expression(s, start) {
        expression_end(s, start)
    } else {
        first_foreign(s, start)
    }
}

/// What one descent into the text finds.
pub enum Scan {
    /// An expression, which ends before `end`.
    Complete { end: int },
    /// The end of the text, with an operand still owed.
    Exhausted,
    /// A character at `position` that is no symbol of the grammar.
    Foreign { position: int },
}

/// The descent from position `i`: one token decides the alternative, and an
/// operator is followed by two further descents.
pub open spec fn scan(s: Seq<char>, i: int) -> Scan
    decreases s.len() - i,
{
    if i < 0 || i >= s.len() {
        Scan::Exhausted
    } else if s[i] == 'a' {
        Scan::Complete { end: i + 1 }
    } else if is_operator(s[i]) {
        match scan(s, i + 1) {
            Scan::Complete { end } => if i < end <= s.len() {
                scan(s, end)
            } else {
                Scan::Exhausted
            },
            stuck => stuck,
        }
    } else {
        Scan::Foreign { position: i }
    }
}

/// What a descent that found `found` hands to its caller: whether an
/// expression was read, or the error.
pub open spec fn reported(found: Scan) -> Result<bool, SyntaxError> {
    match found {
        Scan::Complete { end } => Ok(true),
        Scan::Exhausted => Ok(false),
        Scan::Foreign { position } => Err(
            SyntaxError::InvalidToken { position: position as usize },
        ),
    }
}

/// Where a descent into `s` that found `found` leaves the cursor.
pub open spec fn stopped_at(s: Seq<char>, found: Scan) -> int {
    match found {
        Scan::Complete { end } => end,
        Scan::Exhausted => s.len() as int,
        Scan::Foreign { position } => position,
    }
}

/// What a reading concludes from the descent into `s` that found `found`: a
/// complete expression that reaches the end of the text is accepted, and one
/// that does not leaves text over.
pub open spec fn concluded(s: Seq<char>, found: Scan) -> Result<(), SyntaxError> {
    match found {
        Scan::Complete { end } => if end == s.len() {
            Ok(())
        } else {
            Err(SyntaxError::TrailingInput)
        },
        Scan::Exhausted => Err(SyntaxError::PrematureEnd),
        Scan::Foreign { position } => Err(
            SyntaxError::InvalidToken { position: position as usize },
        ),
    }
}

/// A descent from `i` that found `found` has moved forward and passed over
/// symbols only: an expression is not empty and lies within the text, and
/// the first foreign character, if any, is where the descent stopped or
/// further on.
pub open spec fn has_advanced(s: Seq<char>, i: int, found: Scan) -> bool {
    match found {
        Scan::Complete { end } => i < end <= s.len() && first_foreign(s, i) == first_foreign(
            s,
            end,
        ),
        Scan::Exhausted => first_foreign(s, i) == s.len(),
        Scan::Foreign { position } => i <= position < s.len() && first_foreign(s, i) == position,
    }
}

/// Every descent moves forward and passes over symbols only.
pub proof fn lemma_scan_advances(s: Seq<char>, i: int)
    requires
        0 <= i <= s.len(),
    ensures
        has_advanced(s, i, scan(s, i)),
    decreases s.len() - i,
{
    if i < s.len() && is_operator(s[i]) {
        lemma_scan_advances(s, i + 1);
        if let Scan::Complete { end } = scan(s, i + 1) {
            lemma_scan_advances(s, end);
        }
    }
}

/// What a descent reports as complete is an expression.
pub proof fn lemma_scan_sound(s: Seq<char>, i: int)
    requires
        0 <= i <= s.len(),
    ensures
        scan(s, i) is Complete ==> is_expression(s.subrange(i, scan(s, i)->end)),
    decreases s.len() - i,
{
    if let Scan::Complete { end } = scan(s, i) {
        lemma_scan_advances(s, i);
        let e = s.subrange(i, end);
        if s[i] == 'a' {
            assert(e[0] == 'a');
        } else {
            let mid = scan(s, i + 1)->end;
            lemma_scan_advances(s, i + 1);
            lemma_scan_advances(s, mid);
            lemma_scan_sound(s, i + 1);
            lemma_scan_sound(s, mid);
            assert(e[0] == s[i]);
            assert(e.subrange(1, mid - i) =~= s.subrange(i + 1, mid));
            assert(e.subrange(mid - i, e.len() as int) =~= s.subrange(mid, end));
            assert(is_expression(e.subrange(1, mid - i)));
        }
    }
}

/// Where an expression begins, the descent finds it, and finds its end.
pub proof fn lemma_scan_complete(s: Seq<char>, i: int, end: int)
    requires
        0 <= i <= end <= s.len(),
        is_expression(s.subrange(i, end)),
    ensures
        scan(s, i) is Complete,
        scan(s, i)->end == end,
    decreases end - i,
{
    let e = s.subrange(i, end);
    assert(e[0] == s[i]);
    if e.len() == 1 && e[0] == 'a' {
    } else {
        let mid = choose|mid: int|
            1 < mid < e.len() && is_expression(#[trigger] e.subrange(1, mid)) && is_expression(
                e.subrange(mid, e.len() as int),
            );
        assert(e.subrange(1, mid) =~= s.subrange(i + 1, i + mid));
        assert(e.subrange(mid, e.len() as int) =~= s.subrange(i + mid, end));
        lemma_scan_complete(s, i + 1, i + mid);
        lemma_scan_complete(s, i + mid, end);
    }
}

/// No expression is the beginning of a longer one: from one position at most
/// one stretch of the text is an expression.
pub proof fn lemma_expression_end_unique(s: Seq<char>, start: int, end1: int, end2: int)
    requires
        0 <= start <= end1 <= s.len(),
        0 <= start <= end2 <= s.len(),
        is_expression(s.subrange(start, end1)),
        is_expression(s.subrange(start, end2)),
    ensures
        end1 == end2,
{
    lemma_scan_complete(s, start, end1);
    lemma_scan_complete(s, start, end2);
}

/// The verdict and the resting place are what the descent concludes and
/// where it stops.
pub proof fn lemma_verdict_of_scan(s: Seq<char>, start: int)
    requires
        0 <= start <= s.len(),
    ensures
        verdict(s, start) == concluded(s, scan(s, start)),
        resting_place(s, start) == stopped_at(s, scan(s, start)),
{
    lemma_scan_advances(s, start);
    lemma_scan_sound(s, start);
    assert forall|end: int| start <= end <= s.len() && is_expression(
        #[trigger] s.subrange(start, end),
    ) implies scan(s, start) is Complete && scan(s, start)->end == end by {
        lemma_scan_complete(s, start, end);
    }
    match scan(s, start) {
        Scan::Complete { end } => {
            assert(is_expression(s.subrange(start, end)));
            assert(begins_with_expression(s, start));
            let chosen = expression_end(s, start);
            assert(is_expression(s.subrange(start, chosen)));
        },
        _ => {
            assert(!begins_with_expression(s, start));
        },
    }
}

} // verus!
