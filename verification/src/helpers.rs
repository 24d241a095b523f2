use vstd::prelude::*;

verus! {

/// The characters the tokenizer classifies as operators.
pub open spec fn spec_is_operator(c: char) -> bool {
    c == '+' || c == '-' || c == '*' || c == '/' || c == '^' || c == '(' || c == ')'
}

/// Precedence of a binary operator: `^` binds tightest, then `*` and `/`,
/// then `+` and `-`. Any other character gets the sentinel `-1`, meaning it
/// carries no precedence; parentheses are handled structurally and are never
/// looked up here.
pub open spec fn spec_precedence(c: char) -> int {
    if c == '^' {
        5
    } else if c == '*' || c == '/' {
        3
    } else if c == '+' || c == '-' {
        1
    } else {
        -1
    }
}

/// Whether chained operators of equal precedence group to the right.
/// Only `^` does: `a ^ b ^ c` means `a ^ (b ^ c)`.
pub open spec fn spec_right_assoc(c: char) -> bool {
    c == '^'
}

/// Whether `ch` is one of the seven operator characters `+ - * / ^ ( )`.
pub fn is_operator(ch: char) -> (r: bool)
    ensures
        r == spec_is_operator(ch),
{
    matches!(ch, '+' | '-' | '*' | '/' | '^' | '(' | ')')
}

/// The precedence and right-associativity of an operator character.
pub fn get_op_value(ch: char) -> (r: (i32, bool))
    ensures
        r.0 as int == spec_precedence(ch),
        r.1 == spec_right_assoc(ch),
{
    match ch {
        '^' => (5, true),
        '*' | '/' => (3, false),
        '+' | '-' => (1, false),
        _ => (-1, false),
    }
}

} // verus!
