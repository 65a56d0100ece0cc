//! A check for a prefix expression at the start of a string, written as a
//! function that passes the position along.

use vstd::prelude::*;
use vstd::string::{StrSliceExecFns, StringExecFns};
use crate::prefix::{
    begins_with_expression, is_expression, lemma_scan_advances, lemma_scan_complete,
    lemma_scan_sound, scan,
};

verus! {

/// Succeeds exactly when `input` begins with a prefix expression. Whatever
/// follows the expression is not looked at.
pub fn a(input: &str) -> (result: Result<(), String>)
    ensures
        result is Ok <==> begins_with_expression(input@, 0),
        result matches Err(message) ==> message@ == "Syntax Error"@,
{
    let lookahead_index: usize = 0;
    proof {
        lemma_scan_advances(input@, 0);
        lemma_scan_sound(input@, 0);
        assert forall|end: int| 0 < end <= input@.len() && is_expression(
            #[trigger] input@.subrange(0, end),
        ) implies scan(input@, 0) is Complete by {
            lemma_scan_complete(input@, 0, end);
        }
    }
    match s_a(input, lookahead_index) {
        Ok(_) => Ok(()),
        Err(message) => Err(message),
    }
}

/// Reads one expression from `lookahead_index` on and returns the position
/// behind it.
fn s_a(input: &str, lookahead_index: usize) -> (result: Result<usize, String>)
    ensures
        scan(input@, lookahead_index as int) is Complete ==> result == Ok::<usize, String>(
            scan(input@, lookahead_index as int)->end as usize,
        ),
        !(scan(input@, lookahead_index as int) is Complete) ==> result is Err,
        result matches Err(message) ==> message@ == "Syntax Error"@,
    decreases input@.len() - lookahead_index,
{
    let mut lookahead_index = lookahead_index;
    if lookahead_index < input.unicode_len() {
        let token = input.get_char(lookahead_index);
        proof {
            lemma_scan_advances(input@, lookahead_index + 1);
        }
        match token {
            '+' | '-' => {
                lookahead_index += 1;
                lookahead_index = s_a(input, lookahead_index)?;
                lookahead_index = s_a(input, lookahead_index)?;
                Ok(lookahead_index)
            },
            'a' => {
                lookahead_index += 1;
                Ok(lookahead_index)
            },
            _ => Err(String::from_str("Syntax Error")),
        }
    } else {
        Err(String::from_str("Syntax Error"))
    }
}

} // verus!
