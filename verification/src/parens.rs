//! Balanced parentheses: the language of the grammar `S -> ( S ) S | ε`, what
//! a left-to-right reading of a text finds of it, and the verdict that
//! follows.

use vstd::prelude::*;
use crate::error::{Delimiter, SyntaxError};

verus! {

/// The characters that the grammar knows.
pub open spec fn is_paren(c: char) -> bool {
    c == '(' || c == ')'
}

/// `s` is derived from `S`: it is empty, or an opening parenthesis, a
/// balanced stretch, the parenthesis that closes the first, and a balanced
/// rest.
pub open spec fn is_balanced(s: Seq<char>) -> bool
    decreases s.len(),
{
    ||| s.len() == 0
    ||| (s.len() >= 2 && s[0] == '(' && exists|close: int|
        0 < close < s.len() && s[close] == ')' && is_balanced(#[trigger] s.subrange(1, close))
            && is_balanced(s.subrange(close + 1, s.len() as int)))
}

/// At `at` stands a closing parenthesis that nothing from `start` on opens:
/// what lies between `start` and it is balanced by itself.
pub open spec fn stray_close_at(s: Seq<char>, start: int, at: int) -> bool {
    start <= at < s.len() && s[at] == ')' && is_balanced(s.subrange(start, at))
}

/// Some closing parenthesis after `start` has no partner.
pub open spec fn has_stray_close(s: Seq<char>, start: int) -> bool {
    exists|at: int| #[trigger] stray_close_at(s, start, at)
}

/// The position of the closing parenthesis without a partner. Meaningful
/// where `has_stray_close` holds; there is then one such position only.
pub open spec fn stray_close(s: Seq<char>, start: int) -> int {
    choose|at: int| #[trigger] stray_close_at(s, start, at)
}

/// The first position at or after `from` that holds a character other than a
/// parenthesis, or the length of `s` where there is none.
pub open spec fn first_foreign(s: Seq<char>, from: int) -> int
    decreases s.len() - from,
{
    if from < 0 || from >= s.len() {
        s.len() as int
    } else if !is_paren(s[from]) {
        from
    } else {
        first_foreign(s, from + 1)
    }
}

/// What a reading of `s` from `start` reports: success when the rest of the
/// text is balanced; left-over text when a closing parenthesis has no
/// partner; otherwise the first foreign character, or, where there is none,
/// that a closing parenthesis is missing at the end of the text.
pub open spec fn verdict(s: Seq<char>, start: int) -> Result<(), SyntaxError> {
    if is_balanced(s.subrange(start, s.len() as int)) {
        Ok(())
    } else if has_stray_close(s, start) {
        Err(SyntaxError::TrailingInput)
    } else if first_foreign(s, start) < s.len() {
        Err(SyntaxError::InvalidToken { position: first_foreign(s, start) as usize })
    } else {
        Err(
            SyntaxError::UnexpectedToken {
                expected: Delimiter::CloseParam,
                position: s.len() as usize,
            },
        )
    }
}

/// Where the reading stops: on the closing parenthesis without a partner
/// where there is one, else on the first foreign character or at the end of
/// the text.
pub open spec fn resting_place(s: Seq<char>, start: int) -> int {
    if has_stray_close(s, start) {
        stray_close(s, start)
    } else {
        first_foreign(s, start)
    }
}

/// What one descent into the text finds.
pub enum Descent {
    /// A balanced stretch, after which the descent stands at `at`: on a
    /// closing parenthesis that it leaves to its caller, or at the end of the
    /// text.
    Stopped { at: int },
    /// A character at `position` that is no parenthesis.
    Foreign { position: int },
    /// The end of the text where a closing parenthesis was due.
    Unclosed,
}

/// The descent from position `i`. An opening parenthesis is followed by a
/// descent, the closing parenthesis and another descent; a closing
/// parenthesis or the end of the text ends a descent that has read nothing.
pub open spec fn descend(s: Seq<char>, i: int) -> Descent
    decreases s.len() - i,
{
    if i < 0 || i >= s.len() {
        Descent::Stopped { at: s.len() as int }
    } else if s[i] == '(' {
        match descend(s, i + 1) {
            Descent::Stopped { at } => if i < at < s.len() && s[at] == ')' {
                descend(s, at + 1)
            } else {
                Descent::Unclosed
            },
            stuck => stuck,
        }
    } else if s[i] == ')' {
        Descent::Stopped { at: i }
    } else {
        Descent::Foreign { position: i }
    }
}

/// What a descent into `s` that found `found` hands to its caller.
pub open spec fn reported(s: Seq<char>, found: Descent) -> Result<(), SyntaxError> {
    match found {
        Descent::Stopped { at } => Ok(()),
        Descent::Foreign { position } => Err(
            SyntaxError::InvalidToken { position: position as usize },
        ),
        Descent::Unclosed => Err(
            SyntaxError::UnexpectedToken {
                expected: Delimiter::CloseParam,
                position: s.len() as usize,
            },
        ),
    }
}

/// Where a descent into `s` that found `found` leaves the cursor.
pub open spec fn stopped_at(s: Seq<char>, found: Descent) -> int {
    match found {
        Descent::Stopped { at } => at,
        Descent::Foreign { position } => position,
        Descent::Unclosed => s.len() as int,
    }
}

/// What a reading concludes from the descent into `s` that found `found`: a
/// descent that stops at the end of the text is accepted, and one that stops
/// on a closing parenthesis leaves text over.
pub open spec fn concluded(s: Seq<char>, found: Descent) -> Result<(), SyntaxError> {
    match found {
        Descent::Stopped { at } => if at == s.len() {
            Ok(())
        } else {
            Err(SyntaxError::TrailingInput)
        },
        stuck => reported(s, stuck),
    }
}

/// A descent from `i` that found `found` has moved forward and passed over
/// parentheses only; it has stopped on a closing parenthesis or at the end of
/// the text, and has found a closing parenthesis missing at the end of the
/// text only.
pub open spec fn has_advanced(s: Seq<char>, i: int, found: Descent) -> bool {
    match found {
        Descent::Stopped { at } => {
            &&& i <= at <= s.len()
            &&& at < s.len() ==> s[at] == ')'
            &&& first_foreign(s, i) == first_foreign(s, at)
        },
        Descent::Foreign { position } => {
            &&& i <= position < s.len()
            &&& first_foreign(s, i) == position
        },
        Descent::Unclosed => first_foreign(s, i) == s.len(),
    }
}

/// Every descent moves forward and passes over parentheses only.
pub proof fn lemma_descend_advances(s: Seq<char>, i: int)
    requires
        0 <= i <= s.len(),
    ensures
        has_advanced(s, i, descend(s, i)),
    decreases s.len() - i,
{
    if i < s.len() && s[i] == '(' {
        lemma_descend_advances(s, i + 1);
        if let Descent::Stopped { at } = descend(s, i + 1) {
            if at < s.len() {
                lemma_descend_advances(s, at + 1);
            }
        }
    }
}

/// What a descent has passed over is balanced.
pub proof fn lemma_descend_sound(s: Seq<char>, i: int)
    requires
        0 <= i <= s.len(),
    ensures
        descend(s, i) is Stopped ==> is_balanced(s.subrange(i, descend(s, i)->at)),
    decreases s.len() - i,
{
    if let Descent::Stopped { at } = descend(s, i) {
        lemma_descend_advances(s, i);
        let b = s.subrange(i, at);
        if i < s.len() && s[i] == '(' {
            let close = descend(s, i + 1)->at;
            lemma_descend_advances(s, i + 1);
            lemma_descend_advances(s, close + 1);
            lemma_descend_sound(s, i + 1);
            lemma_descend_sound(s, close + 1);
            assert(b[0] == s[i]);
            assert(b[close - i] == s[close]);
            assert(b.subrange(1, close - i) =~= s.subrange(i + 1, close));
            assert(b.subrange(close - i + 1, b.len() as int) =~= s.subrange(close + 1, at));
            assert(is_balanced(b.subrange(1, close - i)));
        }
    }
}

/// Where a balanced stretch is followed by a closing parenthesis or by the
/// end of the text, the descent passes over exactly that stretch.
pub proof fn lemma_descend_complete(s: Seq<char>, i: int, at: int)
    requires
        0 <= i <= at <= s.len(),
        is_balanced(s.subrange(i, at)),
        at == s.len() || s[at] == ')',
    ensures
        descend(s, i) is Stopped,
        descend(s, i)->at == at,
    decreases at - i,
{
    let b = s.subrange(i, at);
    if b.len() > 0 {
        assert(b[0] == s[i]);
        let close = choose|close: int|
            0 < close < b.len() && b[close] == ')' && is_balanced(
                #[trigger] b.subrange(1, close),
            ) && is_balanced(b.subrange(close + 1, b.len() as int));
        assert(b[close] == s[i + close]);
        assert(b.subrange(1, close) =~= s.subrange(i + 1, i + close));
        assert(b.subrange(close + 1, b.len() as int) =~= s.subrange(i + close + 1, at));
        lemma_descend_complete(s, i + 1, i + close);
        lemma_descend_complete(s, i + close + 1, at);
    }
}

/// The verdict and the resting place are what the descent concludes and
/// where it stops.
pub proof fn lemma_verdict_of_descent(s: Seq<char>, start: int)
    requires
        0 <= start <= s.len(),
    ensures
        verdict(s, start) == concluded(s, descend(s, start)),
        resting_place(s, start) == stopped_at(s, descend(s, start)),
{
    lemma_descend_advances(s, start);
    lemma_descend_sound(s, start);
    if is_balanced(s.subrange(start, s.len() as int)) {
        lemma_descend_complete(s, start, s.len() as int);
    }
    assert forall|at: int| #[trigger] stray_close_at(s, start, at) implies descend(s, start)
        is Stopped && descend(s, start)->at == at by {
        lemma_descend_complete(s, start, at);
    }
    match descend(s, start) {
        Descent::Stopped { at } => {
            if at < s.len() {
                assert(stray_close_at(s, start, at));
                let chosen = stray_close(s, start);
                assert(stray_close_at(s, start, chosen));
            } else {
                assert(!has_stray_close(s, start));
            }
        },
        _ => {
            assert(!has_stray_close(s, start));
        },
    }
}

/// How many parentheses stand open behind the first `k` characters of `s`:
/// the opening ones among them less the closing ones.
pub open spec fn depth(s: Seq<char>, k: int) -> int
    decreases k,
{
    if k <= 0 || k > s.len() {
        0
    } else {
        depth(s, k - 1) + if s[k - 1] == '(' {
            1int
        } else if s[k - 1] == ')' {
            -1int
        } else {
            0int
        }
    }
}

/// `s` holds parentheses only, closes none that is not open, and leaves none
/// open.
pub open spec fn is_well_nested(s: Seq<char>) -> bool {
    &&& forall|k: int| 0 <= k < s.len() ==> is_paren(#[trigger] s[k])
    &&& forall|k: int| 0 <= k <= s.len() ==> #[trigger] depth(s, k) >= 0
    &&& depth(s, s.len() as int) == 0
}

/// The depth within a stretch of `s` is the depth within `s`, counted from
/// where the stretch begins.
pub proof fn lemma_depth_of_stretch(s: Seq<char>, from: int, to: int, k: int)
    requires
        0 <= from <= to <= s.len(),
        0 <= k <= to - from,
    ensures
        depth(s, from + k) == depth(s, from) + depth(s.subrange(from, to), k),
    decreases k,
{
    if k > 0 {
        lemma_depth_of_stretch(s, from, to, k - 1);
        assert(s.subrange(from, to)[k - 1] == s[from + k - 1]);
    }
}

/// In a text that opens with a parenthesis and leaves none open, the first
/// place behind which none is open: the parenthesis there closes the first.
proof fn lemma_first_return(s: Seq<char>, k: int) -> (close: int)
    requires
        1 <= k <= s.len(),
        forall|i: int| 1 <= i <= k ==> #[trigger] depth(s, i) >= 1,
        forall|i: int| 0 <= i <= s.len() ==> #[trigger] depth(s, i) >= 0,
        depth(s, s.len() as int) == 0,
    ensures
        k <= close < s.len(),
        depth(s, close + 1) == 0,
        forall|i: int| 1 <= i <= close ==> #[trigger] depth(s, i) >= 1,
    decreases s.len() - k,
{
    assert(depth(s, k) >= 1);
    assert(depth(s, k + 1) >= 0);
    if depth(s, k + 1) == 0 {
        k
    } else {
        lemma_first_return(s, k + 1)
    }
}

/// What the grammar derives is well nested.
pub proof fn lemma_balanced_is_well_nested(s: Seq<char>)
    requires
        is_balanced(s),
    ensures
        is_well_nested(s),
    decreases s.len(),
{
    if s.len() > 0 {
        let end = s.len() as int;
        let close = choose|close: int|
            0 < close < s.len() && s[close] == ')' && is_balanced(
                #[trigger] s.subrange(1, close),
            ) && is_balanced(s.subrange(close + 1, s.len() as int));
        let inner = s.subrange(1, close);
        let rest = s.subrange(close + 1, end);
        lemma_balanced_is_well_nested(inner);
        lemma_balanced_is_well_nested(rest);
        assert(depth(s, 1) == 1) by {
            assert(depth(s, 0) == 0);
        }
        lemma_depth_of_stretch(s, 1, close, close - 1);
        assert(depth(s, close + 1) == 0);
        assert forall|k: int| 0 <= k < s.len() implies is_paren(#[trigger] s[k]) by {
            if 1 <= k < close {
                assert(inner[k - 1] == s[k]);
            } else if k > close {
                assert(rest[k - close - 1] == s[k]);
            }
        }
        assert forall|k: int| 0 <= k <= s.len() implies #[trigger] depth(s, k) >= 0 by {
            if 1 <= k <= close {
                lemma_depth_of_stretch(s, 1, close, k - 1);
                assert(depth(inner, k - 1) >= 0);
            } else if k > close {
                lemma_depth_of_stretch(s, close + 1, end, k - close - 1);
                assert(depth(rest, k - close - 1) >= 0);
            }
        }
        lemma_depth_of_stretch(s, close + 1, end, end - close - 1);
    }
}

/// What is well nested, the grammar derives.
pub proof fn lemma_well_nested_is_balanced(s: Seq<char>)
    requires
        is_well_nested(s),
    ensures
        is_balanced(s),
    decreases s.len(),
{
    if s.len() > 0 {
        let end = s.len() as int;
        assert(depth(s, 0) == 0);
        assert(depth(s, 1) >= 0);
        assert(is_paren(s[0]));
        assert(s[0] == '(');
        let close = lemma_first_return(s, 1);
        assert(depth(s, close) >= 1);
        assert(is_paren(s[close]));
        assert(s[close] == ')');
        let inner = s.subrange(1, close);
        let rest = s.subrange(close + 1, end);
        assert forall|k: int| 0 <= k < inner.len() implies is_paren(#[trigger] inner[k]) by {
            assert(is_paren(s[k + 1]));
        }
        assert forall|k: int| 0 <= k <= inner.len() implies #[trigger] depth(inner, k) >= 0 by {
            lemma_depth_of_stretch(s, 1, close, k);
            assert(depth(s, 1 + k) >= 1);
        }
        lemma_depth_of_stretch(s, 1, close, close - 1);
        assert forall|k: int| 0 <= k < rest.len() implies is_paren(#[trigger] rest[k]) by {
            assert(is_paren(s[k + close + 1]));
        }
        assert forall|k: int| 0 <= k <= rest.len() implies #[trigger] depth(rest, k) >= 0 by {
            lemma_depth_of_stretch(s, close + 1, end, k);
            assert(depth(s, close + 1 + k) >= 0);
        }
        lemma_depth_of_stretch(s, close + 1, end, end - close - 1);
        lemma_well_nested_is_balanced(inner);
        lemma_well_nested_is_balanced(rest);
    }
}

/// The two readings of "balanced" agree: a text is derived from the grammar
/// exactly when it holds parentheses only, every closing one closes one that
/// is open, and none is left open.
pub proof fn lemma_balanced_iff_well_nested(s: Seq<char>)
    ensures
        is_balanced(s) <==> is_well_nested(s),
{
    if is_balanced(s) {
        lemma_balanced_is_well_nested(s);
    }
    if is_well_nested(s) {
        lemma_well_nested_is_balanced(s);
    }
}

} // verus!
