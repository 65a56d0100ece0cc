//! Zeros closed by as many ones: the language `0^n 1^n` of the grammar
//! `S -> 0 S 1 | ε`, what a left-to-right reading of a text finds of it, and
//! the verdict that follows.

use vstd::prelude::*;
use crate::error::{Delimiter, SyntaxError};

verus! {

/// The characters that the grammar knows.
pub open spec fn is_bit(c: char) -> bool {
    c == '0' || c == '1'
}

/// `s` is `n` zeros followed by `n` ones.
pub open spec fn is_zeros_then_ones(s: Seq<char>, n: nat) -> bool {
    &&& s.len() == 2 * n
    &&& forall|k: int| 0 <= k < n ==> s[k] == '0'
    &&& forall|k: int| n <= k < 2 * n ==> s[k] == '1'
}

/// `s` is derived from `S`: some number of zeros, then as many ones.
pub open spec fn is_nested(s: Seq<char>) -> bool {
    is_zeros_then_ones(s, s.len() / 2)
}

/// Where the run of the character `c` that begins at `from` ends: the first
/// position at or after `from` that holds another character, or the length of
/// `s`.
pub open spec fn run_end(s: Seq<char>, from: int, c: char) -> int
    decreases s.len() - from,
{
    if 0 <= from < s.len() && s[from] == c {
        run_end(s, from + 1, c)
    } else {
        from
    }
}

/// Where the cursor stands after an attempt to read a `1` at `at` has failed:
/// a `0` is stepped over, anything else is left in place.
pub open spec fn after_attempt(s: Seq<char>, at: int) -> int {
    if 0 <= at < s.len() && s[at] == '0' {
        at + 1
    } else {
        at
    }
}

/// What one descent into the text finds.
pub enum Nest {
    /// Zeros and the ones that close them, after which the descent stands at
    /// `at`.
    Stopped { at: int },
    /// A character at `position` that is neither `0` nor `1`.
    Foreign { position: int },
    /// Something other than the `1` that was due; `position` is where the
    /// attempt to read it left the cursor.
    Unclosed { position: int },
}

/// The outcome of a descent from `start`, told from the two runs that the
/// text begins with. With `z` zeros followed by at least `z` ones the descent
/// stops behind the `z`th one. With fewer ones, a `1` is missing where the
/// ones end. A foreign character directly behind the zeros is reported
/// before any one is asked for.
pub open spec fn outcome(s: Seq<char>, start: int) -> Nest {
    let zeros_end = run_end(s, start, '0');
    let ones_end = run_end(s, zeros_end, '1');
    if zeros_end < s.len() && !is_bit(s[zeros_end]) {
        Nest::Foreign { position: zeros_end }
    } else if ones_end - zeros_end >= zeros_end - start {
        Nest::Stopped { at: 2 * zeros_end - start }
    } else {
        Nest::Unclosed { position: after_attempt(s, ones_end) }
    }
}

/// What a descent that found `found` hands to its caller.
pub open spec fn reported(found: Nest) -> Result<(), SyntaxError> {
    match found {
        Nest::Stopped { at } => Ok(()),
        Nest::Foreign { position } => Err(
            SyntaxError::InvalidToken { position: position as usize },
        ),
        Nest::Unclosed { position } => Err(
            SyntaxError::UnexpectedToken { expected: Delimiter::One, position: position as usize },
        ),
    }
}

/// Where a descent that found `found` leaves the cursor.
pub open spec fn stopped_at(found: Nest) -> int {
    match found {
        Nest::Stopped { at } => at,
        Nest::Foreign { position } => position,
        Nest::Unclosed { position } => position,
    }
}

/// What a reading of `s` from `start` reports: success when the descent stops
/// at the end of the text, left-over text when it stops before, and otherwise
/// what the descent ran into.
pub open spec fn verdict(s: Seq<char>, start: int) -> Result<(), SyntaxError> {
    match outcome(s, start) {
        Nest::Stopped { at } => if at == s.len() {
            Ok(())
        } else {
            Err(SyntaxError::TrailingInput)
        },
        stuck => reported(stuck),
    }
}

/// Where the reading stops.
pub open spec fn resting_place(s: Seq<char>, start: int) -> int {
    stopped_at(outcome(s, start))
}

/// The descent from position `i`. A `0` is followed by a descent and a `1`; a
/// `1` or the end of the text ends a descent that has read nothing.
pub open spec fn descend(s: Seq<char>, i: int) -> Nest
    decreases s.len() - i,
{
    if i < 0 || i >= s.len() {
        Nest::Stopped { at: i }
    } else if s[i] == '0' {
        match descend(s, i + 1) {
            Nest::Stopped { at } => if 0 <= at < s.len() && s[at] == '1' {
                Nest::Stopped { at: at + 1 }
            } else {
                Nest::Unclosed { position: after_attempt(s, at) }
            },
            stuck => stuck,
        }
    } else if s[i] == '1' {
        Nest::Stopped { at: i }
    } else {
        Nest::Foreign { position: i }
    }
}

/// A run lies within the text, holds its character only, and ends at the
/// first other character.
pub proof fn lemma_run_end(s: Seq<char>, from: int, c: char)
    requires
        0 <= from <= s.len(),
    ensures
        from <= run_end(s, from, c) <= s.len(),
        forall|k: int| from <= k < run_end(s, from, c) ==> s[k] == c,
        run_end(s, from, c) < s.len() ==> s[run_end(s, from, c)] != c,
    decreases s.len() - from,
{
    if from < s.len() && s[from] == c {
        lemma_run_end(s, from + 1, c);
    }
}

/// A stretch of one character that ends at another character, or at the end
/// of the text, is the run.
pub proof fn lemma_run_end_is(s: Seq<char>, from: int, c: char, end: int)
    requires
        0 <= from <= end <= s.len(),
        forall|k: int| from <= k < end ==> s[k] == c,
        end < s.len() ==> s[end] != c,
    ensures
        run_end(s, from, c) == end,
    decreases end - from,
{
    if from < end {
        lemma_run_end_is(s, from + 1, c, end);
    }
}

/// The descent finds what the two runs foretell.
pub proof fn lemma_descend_is_outcome(s: Seq<char>, i: int)
    requires
        0 <= i <= s.len(),
    ensures
        descend(s, i) == outcome(s, i),
    decreases s.len() - i,
{
    let zeros_end = run_end(s, i, '0');
    let ones_end = run_end(s, zeros_end, '1');
    lemma_run_end(s, i, '0');
    lemma_run_end(s, zeros_end, '1');
    if i < s.len() && s[i] == '0' {
        lemma_descend_is_outcome(s, i + 1);
        assert(run_end(s, i + 1, '0') == zeros_end);
    }
}

/// A reading goes through the whole of what is left of the text exactly when
/// that is zeros followed by as many ones.
pub proof fn lemma_accepts_nested(s: Seq<char>, start: int)
    requires
        0 <= start <= s.len(),
    ensures
        verdict(s, start) is Ok <==> is_nested(s.subrange(start, s.len() as int)),
{
    let rest = s.subrange(start, s.len() as int);
    let zeros_end = run_end(s, start, '0');
    let ones_end = run_end(s, zeros_end, '1');
    lemma_run_end(s, start, '0');
    lemma_run_end(s, zeros_end, '1');
    if is_nested(rest) {
        let n = (rest.len() / 2) as int;
        assert forall|k: int| start <= k < start + n implies s[k] == '0' by {
            assert(rest[k - start] == s[k]);
        }
        assert forall|k: int| start + n <= k < start + 2 * n implies s[k] == '1' by {
            assert(rest[k - start] == s[k]);
        }
        assert(start + n < s.len() ==> s[start + n] != '0');
        lemma_run_end_is(s, start, '0', start + n);
        lemma_run_end_is(s, start + n, '1', start + 2 * n);
    }
    if verdict(s, start) is Ok {
        let n = zeros_end - start;
        assert forall|k: int| 0 <= k < n implies rest[k] == '0' by {
            assert(rest[k] == s[start + k]);
        }
        assert forall|k: int| n <= k < 2 * n implies rest[k] == '1' by {
            assert(rest[k] == s[start + k]);
        }
        assert(is_zeros_then_ones(rest, n as nat));
    }
}

/// A text that is not empty is accepted exactly when it is `0^n 1^n` for some
/// `n` of at least 1. (The empty text, `n = 0`, is accepted as well: the
/// grammar derives it.)
pub proof fn lemma_accepts_zeros_then_ones(s: Seq<char>)
    requires
        s.len() > 0,
    ensures
        verdict(s, 0) is Ok <==> exists|n: nat| n >= 1 && is_zeros_then_ones(s, n),
{
    lemma_accepts_nested(s, 0);
    assert(s.subrange(0, s.len() as int) =~= s);
    if is_nested(s) {
        assert(is_zeros_then_ones(s, s.len() / 2));
    }
}

} // verus!
