//! The grammar of the language, as functions from the source text and a
//! position in it to what stands there.
//!
//! Each function reads the text `s` from the position `i` on and gives either
//! what it found together with the position after it, or the failure. White
//! space may stand between any two tokens.

use vstd::prelude::*;
use crate::error::{no_digits, no_float, too_large, ErrorKindView, ParseErrorView};
use crate::program::{ClassView, OperationView, ProgramView};
use crate::text::is_char_code;
use crate::value::{Arithmetic, DataView, Relation};

verus! {

/// What stands at a position: a value and the position after it, or a
/// failure.
pub type Parsed<T> = Result<(T, int), ParseErrorView>;

/// The failure of the given kind at the given position.
pub open spec fn fail<T>(kind: ErrorKindView, important: bool, position: int) -> Parsed<T> {
    Err(ParseErrorView { kind, important, position })
}

/// Whether `parsed` is the value `value`, ending before `next`.
pub open spec fn found<T>(parsed: Parsed<T>, value: T, next: int) -> bool {
    parsed == Ok::<(T, int), ParseErrorView>((value, next))
}

/// Whether `parsed` is the failure `error`.
pub open spec fn failed<T>(parsed: Parsed<T>, error: ParseErrorView) -> bool {
    parsed == Err::<(T, int), ParseErrorView>(error)
}

/// The sets of characters that names, numbers and white space are made of.
#[derive(Clone, Copy, Debug, PartialEq, Eq, Structural)]
pub enum CharClass {
    /// Space, tab, carriage return and line feed.
    Whitespace,
    /// The digits `0` to `9`.
    Digit,
    /// The letters `a` to `z`, of which variable names are made.
    Lower,
    /// The letters `A` to `Z`, of which function names are made.
    Upper,
}

/// Whether `c` belongs to `class`.
pub open spec fn in_class(class: CharClass, c: char) -> bool {
    match class {
        CharClass::Whitespace => c == ' ' || c == '\t' || c == '\r' || c == '\n',
        CharClass::Digit => '0' <= c <= '9',
        CharClass::Lower => 'a' <= c <= 'z',
        CharClass::Upper => 'A' <= c <= 'Z',
    }
}

/// The end of the longest run of characters of `class` that starts at `i`.
pub open spec fn span_end(s: Seq<char>, i: int, class: CharClass) -> int
    decreases s.len() - i,
{
    if 0 <= i < s.len() && in_class(class, s[i]) {
        span_end(s, i + 1, class)
    } else {
        i
    }
}

/// The position of the first character at or after `i` that is not white
/// space.
pub open spec fn skip_space(s: Seq<char>, i: int) -> int {
    span_end(s, i, CharClass::Whitespace)
}

/// Whether the character `c` stands at `i`.
pub open spec fn has_char(s: Seq<char>, i: int, c: char) -> bool {
    0 <= i < s.len() && s[i] == c
}

/// Whether the characters `c` and `d` stand at `i`, in this order.
pub open spec fn has_pair(s: Seq<char>, i: int, c: char, d: char) -> bool {
    has_char(s, i, c) && has_char(s, i + 1, d)
}

/// The value of a decimal digit.
pub open spec fn digit_value(c: char) -> nat {
    (c as int - '0' as int) as nat
}

/// The number that a sequence of decimal digits denotes.
pub open spec fn decimal_value(digits: Seq<char>) -> nat
    decreases digits.len(),
{
    if digits.len() == 0 {
        0
    } else {
        10 * decimal_value(digits.drop_last()) + digit_value(digits.last())
    }
}

/// Whether `c` is a hexadecimal digit.
pub open spec fn is_hex_digit(c: char) -> bool {
    '0' <= c <= '9' || 'a' <= c <= 'f' || 'A' <= c <= 'F'
}

/// The value of a hexadecimal digit.
pub open spec fn hex_digit_value(c: char) -> nat {
    if '0' <= c <= '9' {
        (c as int - '0' as int) as nat
    } else if 'a' <= c <= 'f' {
        (c as int - 'a' as int + 10) as nat
    } else {
        (c as int - 'A' as int + 10) as nat
    }
}

/// The number that a sequence of hexadecimal digits denotes.
pub open spec fn hex_value(digits: Seq<char>) -> nat
    decreases digits.len(),
{
    if digits.len() == 0 {
        0
    } else {
        16 * hex_value(digits.drop_last()) + hex_digit_value(digits.last())
    }
}

/// Whether every character of `digits` is a hexadecimal digit.
pub open spec fn all_hex_digits(digits: Seq<char>) -> bool {
    forall|i: int| 0 <= i < digits.len() ==> is_hex_digit(#[trigger] digits[i])
}

/// The end of the digits of a `\u` escape that start at `i`: the position of
/// the first `}` among the next `budget` characters, or where these or the
/// text end.
pub open spec fn brace_end(s: Seq<char>, i: int, budget: nat) -> int
    decreases budget,
{
    if budget > 0 && 0 <= i < s.len() && s[i] != '}' {
        brace_end(s, i + 1, (budget - 1) as nat)
    } else {
        i
    }
}

/// A variable name: one or more small letters.
pub open spec fn var_name(s: Seq<char>, i: int) -> Parsed<Seq<char>> {
    let j = span_end(s, i, CharClass::Lower);
    if j > i {
        Ok((s.subrange(i, j), j))
    } else {
        fail(ErrorKindView::ExpectedVariableName, true, i)
    }
}

/// What stands after the backslash of an escape in a string literal, `i`
/// being the position after the backslash: the character that the escape
/// denotes, or none where the backslash stands before another character
/// than `n t r x u 0 " \` and so denotes nothing.
///
/// `\xHH` denotes the character whose code the two hexadecimal digits give.
/// `\u{H..H}` denotes the character whose code the one to six hexadecimal
/// digits give.
pub open spec fn escape(s: Seq<char>, i: int) -> Parsed<Option<char>> {
    if has_char(s, i, 'n') {
        Ok((Some('\n'), i + 1))
    } else if has_char(s, i, 't') {
        Ok((Some('\t'), i + 1))
    } else if has_char(s, i, 'r') {
        Ok((Some('\r'), i + 1))
    } else if has_char(s, i, 'x') {
        if i + 3 > s.len() {
            fail(ErrorKindView::UnexpectedEOF, true, i + 1)
        } else if !(is_hex_digit(s[i + 1]) && is_hex_digit(s[i + 2])) {
            fail(ErrorKindView::InvalidAsciiEscape, true, i + 3)
        } else {
            Ok((Some(hex_value(s.subrange(i + 1, i + 3)) as char), i + 3))
        }
    } else if has_char(s, i, 'u') {
        let start = i + 2;
        let end = brace_end(s, start, 6);
        let digits = s.subrange(start, end);
        if !has_char(s, i + 1, '{') {
            fail(ErrorKindView::InvalidUnicodeEscape, true, i + 1)
        } else if !has_char(s, end, '}') {
            fail(ErrorKindView::InvalidUnicodeEscape, true, end)
        } else if !all_hex_digits(digits) {
            fail(ErrorKindView::InvalidUnicodeEscape, true, end + 1)
        } else if digits.len() == 0 {
            fail(ErrorKindView::NumberParseError(no_digits()), true, end + 1)
        } else if !is_char_code(hex_value(digits)) {
            fail(ErrorKindView::InvalidUnicodeEscape, true, end + 1)
        } else {
            Ok((Some(hex_value(digits) as char), end + 1))
        }
    } else if has_char(s, i, '0') {
        Ok((Some('\0'), i + 1))
    } else if has_char(s, i, '"') {
        Ok((Some('"'), i + 1))
    } else if has_char(s, i, '\\') {
        Ok((Some('\\'), i + 1))
    } else {
        Ok((None, i))
    }
}

/// The digits of a `\u` escape end at or after their start, at most
/// `budget` characters on, and hold no `}`.
pub proof fn lemma_brace_end_bounds(s: Seq<char>, i: int, budget: nat)
    ensures
        i <= brace_end(s, i, budget) <= i + budget,
        i <= s.len() ==> brace_end(s, i, budget) <= s.len(),
        forall|j: int| i <= j < brace_end(s, i, budget) ==> #[trigger] s[j] != '}',
    decreases budget,
{
    if budget > 0 && 0 <= i < s.len() && s[i] != '}' {
        lemma_brace_end_bounds(s, i + 1, (budget - 1) as nat);
    }
}

/// The rest of a string literal from `i` on, up to and with the closing
/// quote, `text` being what the literal denotes up to `i`.
pub open spec fn string_rest(s: Seq<char>, i: int, text: Seq<char>) -> Parsed<Seq<char>>
    decreases s.len() - i,
{
    if !(0 <= i < s.len()) {
        fail(ErrorKindView::UnexpectedEOF, true, i)
    } else if s[i] == '"' {
        Ok((text, i + 1))
    } else if s[i] == '\\' {
        match escape(s, i + 1) {
            Err(e) => Err(e),
            Ok((c, next)) => {
                proof {
                    lemma_brace_end_bounds(s, i + 3, 6);
                }
                string_rest(
                    s,
                    next,
                    match c {
                        Some(c) => text.push(c),
                        None => text,
                    },
                )
            },
        }
    } else {
        string_rest(s, i + 1, text.push(s[i]))
    }
}

/// Whether the word `true` stands at `i`.
pub open spec fn has_true(s: Seq<char>, i: int) -> bool {
    has_pair(s, i, 't', 'r') && has_pair(s, i + 2, 'u', 'e')
}

/// Whether the word `false` stands at `i`.
pub open spec fn has_false(s: Seq<char>, i: int) -> bool {
    has_pair(s, i, 'f', 'a') && has_pair(s, i + 2, 'l', 's') && has_char(s, i + 4, 'e')
}

/// A literal: a string between double quotes, `true`, `false`, a variable
/// name, or a number made of digits, with or without a point and digits
/// after it.
pub open spec fn data(s: Seq<char>, i: int) -> Parsed<DataView> {
    if has_char(s, i, '"') {
        match string_rest(s, i + 1, Seq::empty()) {
            Ok((text, next)) => Ok((DataView::Str(text), next)),
            Err(e) => Err(e),
        }
    } else if has_true(s, i) {
        Ok((DataView::Bool(true), i + 4))
    } else if has_false(s, i) {
        Ok((DataView::Bool(false), i + 5))
    } else if span_end(s, i, CharClass::Lower) > i {
        let j = span_end(s, i, CharClass::Lower);
        Ok((DataView::Var(s.subrange(i, j)), j))
    } else {
        let j = span_end(s, i, CharClass::Digit);
        let k = if has_char(s, j, '.') {
            span_end(s, j + 1, CharClass::Digit)
        } else {
            j
        };
        if k == i {
            fail(ErrorKindView::ExpectedNumber, true, i)
        } else if k == i + 1 && has_char(s, i, '.') {
            fail(ErrorKindView::NumberParseError(no_float()), true, k)
        } else {
            Ok((DataView::Number(s.subrange(i, k)), k))
        }
    }
}

/// A call, of which the digits `s[i..j]` have been read: a class number that
/// fits into 32 bits, `>`, and a function name of one or more capital
/// letters.
pub open spec fn call(s: Seq<char>, i: int, j: int) -> Parsed<(u32, Seq<char>)> {
    let number = decimal_value(s.subrange(i, j));
    let k = skip_space(s, j);
    let m = skip_space(s, k + 1);
    let n = span_end(s, m, CharClass::Upper);
    if number > u32::MAX {
        fail(ErrorKindView::NumberParseError(too_large()), true, j)
    } else if !has_char(s, k, '>') {
        fail(ErrorKindView::ExpectedCall, true, k)
    } else if n == m {
        fail(ErrorKindView::ExpectedFunctionName, false, m)
    } else {
        Ok(((number as u32, s.subrange(m, n)), n))
    }
}

/// The operators that may follow the first variable of an operation.
#[derive(Clone, Copy, Debug, PartialEq, Eq, Structural)]
pub enum Operator {
    Equal,
    GreaterEqual,
    LessEqual,
    Greater,
    Less,
    NotEqual,
    Not,
    Or,
    And,
    Assign,
    Add,
    Sub,
    Mul,
    Mod,
    Div,
}

/// The operator that stands at `i` and its length, if one stands there. The
/// operators are tried in the order `== >= <= > < != ! | & = + - * // /`, so
/// that `>=` is never read as `>`, nor `!=` as `!`, nor `//` as `/`.
pub open spec fn operator_at(s: Seq<char>, i: int) -> Option<(Operator, int)> {
    if has_pair(s, i, '=', '=') {
        Some((Operator::Equal, 2))
    } else if has_pair(s, i, '>', '=') {
        Some((Operator::GreaterEqual, 2))
    } else if has_pair(s, i, '<', '=') {
        Some((Operator::LessEqual, 2))
    } else if has_char(s, i, '>') {
        Some((Operator::Greater, 1))
    } else if has_char(s, i, '<') {
        Some((Operator::Less, 1))
    } else if has_pair(s, i, '!', '=') {
        Some((Operator::NotEqual, 2))
    } else if has_char(s, i, '!') {
        Some((Operator::Not, 1))
    } else if has_char(s, i, '|') {
        Some((Operator::Or, 1))
    } else if has_char(s, i, '&') {
        Some((Operator::And, 1))
    } else if has_char(s, i, '=') {
        Some((Operator::Assign, 1))
    } else if has_char(s, i, '+') {
        Some((Operator::Add, 1))
    } else if has_char(s, i, '-') {
        Some((Operator::Sub, 1))
    } else if has_char(s, i, '*') {
        Some((Operator::Mul, 1))
    } else if has_pair(s, i, '/', '/') {
        Some((Operator::Mod, 2))
    } else if has_char(s, i, '/') {
        Some((Operator::Div, 1))
    } else {
        None
    }
}

/// The operation that `operator` makes of the variables `left` and `right`.
/// `Not` takes no second variable. `Assign` takes a literal in place of the
/// second variable, so that nothing is said of it here.
pub open spec fn binary(operator: Operator, left: Seq<char>, right: Seq<char>) -> OperationView
    recommends
        !(operator is Assign),
{
    match operator {
        Operator::Equal => OperationView::Compare(Relation::Equal, left, right),
        Operator::GreaterEqual => OperationView::Compare(Relation::GreaterEqual, left, right),
        Operator::LessEqual => OperationView::Compare(Relation::LessEqual, left, right),
        Operator::Greater => OperationView::Compare(Relation::Greater, left, right),
        Operator::Less => OperationView::Compare(Relation::Less, left, right),
        Operator::NotEqual => OperationView::Compare(Relation::NotEqual, left, right),
        Operator::Or => OperationView::Or(left, right),
        Operator::And => OperationView::And(left, right),
        Operator::Add => OperationView::Arithmetic(Arithmetic::Add, left, right),
        Operator::Sub => OperationView::Arithmetic(Arithmetic::Sub, left, right),
        Operator::Mul => OperationView::Arithmetic(Arithmetic::Mul, left, right),
        Operator::Mod => OperationView::Arithmetic(Arithmetic::Mod, left, right),
        Operator::Div => OperationView::Arithmetic(Arithmetic::Div, left, right),
        Operator::Not => OperationView::Not(left),
        Operator::Assign => arbitrary(),
    }
}

/// An operation that starts with the variable `name`, `i` being the position
/// of the first character after the name that is not white space. Before `,`
/// and `;` the name alone is an operation: it prints the variable.
pub open spec fn simple(s: Seq<char>, name: Seq<char>, i: int) -> Parsed<OperationView> {
    if has_char(s, i, ',') || has_char(s, i, ';') {
        Ok((OperationView::Print(name), i))
    } else {
        match operator_at(s, i) {
            None => fail(ErrorKindView::ExpectedOperation, true, i),
            Some((Operator::Not, width)) => Ok((OperationView::Not(name), i + width)),
            Some((Operator::Assign, width)) => match data(s, skip_space(s, i + width)) {
                Ok((value, next)) => Ok((OperationView::Assign(name, value), next)),
                Err(e) => Err(e),
            },
            Some((operator, width)) => match var_name(s, skip_space(s, i + width)) {
                Ok((other, next)) => Ok((binary(operator, name, other), next)),
                Err(e) => Err(e),
            },
        }
    }
}

/// `parsed`, unless it ends at or before `from`: then it counts as a
/// failure. This keeps the definitions below well founded;
/// `lemma_operation_advances` shows that it changes nothing.
pub open spec fn advancing<T>(parsed: Parsed<T>, from: int) -> Parsed<T> {
    match parsed {
        Ok((_, next)) => if next > from {
            parsed
        } else {
            fail(ErrorKindView::ExpectedOperation, true, from)
        },
        Err(_) => parsed,
    }
}

/// An operation: a conditional, which starts with `(`; an operation on a
/// variable, which starts with its name; or a call, which starts with the
/// number of a class.
///
/// A conditional is the condition in round brackets, `?`, the operations of
/// the one branch in curly brackets and, after `:`, those of the other in
/// curly brackets.
pub open spec fn operation(s: Seq<char>, i: int) -> Parsed<OperationView>
    decreases s.len() - i, 0int,
{
    if has_char(s, i, '(') {
        proof {
            lemma_span_end_bounds(s, i + 1, CharClass::Whitespace);
        }
        let a = skip_space(s, i + 1);
        match advancing(operation(s, a), a) {
            Err(e) => Err(e),
            Ok((condition, b)) => {
                let c = skip_space(s, b);
                let d = skip_space(s, c + 1);
                let e = skip_space(s, d + 1);
                proof {
                    lemma_span_end_bounds(s, b, CharClass::Whitespace);
                    lemma_span_end_bounds(s, c + 1, CharClass::Whitespace);
                    lemma_span_end_bounds(s, d + 1, CharClass::Whitespace);
                }
                if !has_char(s, c, ')') {
                    fail(ErrorKindView::ExpectedParenthesisEnd, true, c)
                } else if !has_char(s, d, '?') {
                    fail(ErrorKindView::ExpectedConditionalBlock, true, d)
                } else if !has_char(s, e, '{') {
                    fail(ErrorKindView::ExpectedConditionalBlock, true, e)
                } else {
                    match advancing(operations(s, e + 1, '}', Seq::empty()), e) {
                        Err(e) => Err(e),
                        Ok((then_branch, f)) => {
                            let g = skip_space(s, f);
                            let h = skip_space(s, g + 1);
                            let k = skip_space(s, h + 1);
                            proof {
                                lemma_span_end_bounds(s, f, CharClass::Whitespace);
                                lemma_span_end_bounds(s, g + 1, CharClass::Whitespace);
                                lemma_span_end_bounds(s, h + 1, CharClass::Whitespace);
                            }
                            if !has_char(s, g, '}') {
                                fail(ErrorKindView::ExpectedConditionalBlockEnd, true, g)
                            } else if !has_char(s, h, ':') {
                                Ok(
                                    (
                                        OperationView::Conditional {
                                            condition: Box::new(condition),
                                            then_branch,
                                            else_branch: None,
                                        },
                                        h,
                                    ),
                                )
                            } else if !has_char(s, k, '{') {
                                fail(ErrorKindView::ExpectedConditionalOtherwiseBlock, true, k)
                            } else {
                                match operations(s, k + 1, '}', Seq::empty()) {
                                    Err(e) => Err(e),
                                    Ok((else_branch, m)) => {
                                        let n = skip_space(s, m);
                                        if !has_char(s, n, '}') {
                                            fail(
                                                ErrorKindView::ExpectedConditionalOtherwiseBlockEnd,
                                                true,
                                                n,
                                            )
                                        } else {
                                            Ok(
                                                (
                                                    OperationView::Conditional {
                                                        condition: Box::new(condition),
                                                        then_branch,
                                                        else_branch: Some(else_branch),
                                                    },
                                                    n + 1,
                                                ),
                                            )
                                        }
                                    },
                                }
                            }
                        },
                    }
                }
            },
        }
    } else if span_end(s, i, CharClass::Lower) > i {
        let j = span_end(s, i, CharClass::Lower);
        simple(s, s.subrange(i, j), skip_space(s, j))
    } else if span_end(s, i, CharClass::Digit) > i {
        match call(s, i, span_end(s, i, CharClass::Digit)) {
            Ok(((class, name), next)) => Ok((OperationView::Call(class, name), next)),
            Err(e) => Err(e),
        }
    } else {
        fail(ErrorKindView::ExpectedOperation, true, i)
    }
}

/// The operations of a function or of a branch from `i` on, up to and
/// without the character `close` that ends them, `found` being those before
/// `i`. A comma stands after each operation but the last, and may stand
/// after the last.
pub open spec fn operations(s: Seq<char>, i: int, close: char, found: Seq<OperationView>) -> Parsed<
    Seq<OperationView>,
>
    decreases s.len() - i, 1int,
{
    proof {
        lemma_span_end_bounds(s, i, CharClass::Whitespace);
    }
    let a = skip_space(s, i);
    if !(0 <= i <= s.len()) {
        fail(ErrorKindView::ExpectedOperation, true, i)
    } else if has_char(s, a, close) {
        Ok((found, a))
    } else {
        match advancing(operation(s, a), a) {
            Err(e) => Err(e),
            Ok((op, b)) => {
                proof {
                    lemma_span_end_bounds(s, b, CharClass::Whitespace);
                }
                let c = skip_space(s, b);
                if has_char(s, c, ',') {
                    operations(s, c + 1, close, found.push(op))
                } else {
                    Ok((found.push(op), c))
                }
            },
        }
    }
}

/// A run of characters ends in the text, at or after its start.
pub proof fn lemma_span_end_bounds(s: Seq<char>, i: int, class: CharClass)
    ensures
        i <= span_end(s, i, class),
        i <= s.len() ==> span_end(s, i, class) <= s.len(),
        forall|j: int| i <= j < span_end(s, i, class) ==> in_class(class, #[trigger] s[j]),
        0 <= span_end(s, i, class) < s.len() ==> !in_class(class, s[span_end(s, i, class)]),
    decreases s.len() - i,
{
    if 0 <= i < s.len() && in_class(class, s[i]) {
        lemma_span_end_bounds(s, i + 1, class);
    }
}

/// An operation that was read ends after its start and in the text.
pub proof fn lemma_operation_advances(s: Seq<char>, i: int)
    requires
        0 <= i,
    ensures
        operation(s, i) matches Ok((_, next)) ==> i < next <= s.len(),
    decreases s.len() - i, 0int,
{
    if has_char(s, i, '(') {
        let a = skip_space(s, i + 1);
        lemma_span_end_bounds(s, i + 1, CharClass::Whitespace);
        lemma_operation_advances(s, a);
        if let Ok((condition, b)) = advancing(operation(s, a), a) {
            let c = skip_space(s, b);
            let d = skip_space(s, c + 1);
            let e = skip_space(s, d + 1);
            lemma_span_end_bounds(s, b, CharClass::Whitespace);
            lemma_span_end_bounds(s, c + 1, CharClass::Whitespace);
            lemma_span_end_bounds(s, d + 1, CharClass::Whitespace);
            if has_char(s, c, ')') && has_char(s, d, '?') && has_char(s, e, '{') {
                lemma_operations_advance(s, e + 1, '}', Seq::empty());
                if let Ok((then_branch, f)) = advancing(
                    operations(s, e + 1, '}', Seq::empty()),
                    e,
                ) {
                    let g = skip_space(s, f);
                    let h = skip_space(s, g + 1);
                    let k = skip_space(s, h + 1);
                    lemma_span_end_bounds(s, f, CharClass::Whitespace);
                    lemma_span_end_bounds(s, g + 1, CharClass::Whitespace);
                    lemma_span_end_bounds(s, h + 1, CharClass::Whitespace);
                    if has_char(s, g, '}') && has_char(s, h, ':') && has_char(s, k, '{') {
                        lemma_operations_advance(s, k + 1, '}', Seq::empty());
                        if let Ok((else_branch, m)) = operations(s, k + 1, '}', Seq::empty()) {
                            lemma_span_end_bounds(s, m, CharClass::Whitespace);
                        }
                    }
                }
            }
        }
    } else if span_end(s, i, CharClass::Lower) > i {
        let j = span_end(s, i, CharClass::Lower);
        lemma_span_end_bounds(s, i, CharClass::Lower);
        lemma_span_end_bounds(s, j, CharClass::Whitespace);
        lemma_simple_advances(s, s.subrange(i, j), skip_space(s, j));
    } else if span_end(s, i, CharClass::Digit) > i {
        let j = span_end(s, i, CharClass::Digit);
        lemma_span_end_bounds(s, i, CharClass::Digit);
        lemma_call_advances(s, i, j);
    }
}

/// Operations that were read end in the text, at or after their start.
pub proof fn lemma_operations_advance(
    s: Seq<char>,
    i: int,
    close: char,
    found: Seq<OperationView>,
)
    requires
        0 <= i,
    ensures
        operations(s, i, close, found) matches Ok((_, next)) ==> i <= next <= s.len(),
    decreases s.len() - i, 1int,
{
    lemma_span_end_bounds(s, i, CharClass::Whitespace);
    let a = skip_space(s, i);
    if 0 <= i <= s.len() && !has_char(s, a, close) {
        lemma_operation_advances(s, a);
        if let Ok((op, b)) = advancing(operation(s, a), a) {
            lemma_span_end_bounds(s, b, CharClass::Whitespace);
            let c = skip_space(s, b);
            if has_char(s, c, ',') {
                lemma_operations_advance(s, c + 1, close, found.push(op));
            }
        }
    }
}

/// A string literal that was read ends after the position from which its
/// rest was read, and in the text.
pub proof fn lemma_string_rest_advances(s: Seq<char>, i: int, text: Seq<char>)
    ensures
        string_rest(s, i, text) matches Ok((_, next)) ==> i < next <= s.len(),
    decreases s.len() - i,
{
    if 0 <= i < s.len() && s[i] != '"' {
        if s[i] == '\\' {
            lemma_brace_end_bounds(s, i + 3, 6);
            if let Ok((c, next)) = escape(s, i + 1) {
                lemma_string_rest_advances(
                    s,
                    next,
                    match c {
                        Some(c) => text.push(c),
                        None => text,
                    },
                );
            }
        } else {
            lemma_string_rest_advances(s, i + 1, text.push(s[i]));
        }
    }
}

/// A literal that was read ends after its start and in the text.
pub proof fn lemma_data_advances(s: Seq<char>, i: int)
    requires
        0 <= i,
    ensures
        data(s, i) matches Ok((_, next)) ==> i < next <= s.len(),
{
    lemma_string_rest_advances(s, i + 1, Seq::empty());
    lemma_span_end_bounds(s, i, CharClass::Lower);
    lemma_span_end_bounds(s, i, CharClass::Digit);
    lemma_span_end_bounds(s, span_end(s, i, CharClass::Digit) + 1, CharClass::Digit);
}

/// A call that was read ends after its digits and in the text.
pub proof fn lemma_call_advances(s: Seq<char>, i: int, j: int)
    requires
        0 <= i <= j <= s.len(),
    ensures
        call(s, i, j) matches Ok((_, next)) ==> j < next <= s.len(),
{
    lemma_span_end_bounds(s, j, CharClass::Whitespace);
    let k = skip_space(s, j);
    lemma_span_end_bounds(s, k + 1, CharClass::Whitespace);
    lemma_span_end_bounds(s, skip_space(s, k + 1), CharClass::Upper);
}

/// An operation on a variable that was read ends in the text, at or after
/// the position that follows the variable's name.
pub proof fn lemma_simple_advances(s: Seq<char>, name: Seq<char>, i: int)
    requires
        0 <= i <= s.len(),
    ensures
        simple(s, name, i) matches Ok((_, next)) ==> i <= next <= s.len(),
{
    if let Some((operator, width)) = operator_at(s, i) {
        lemma_span_end_bounds(s, i + width, CharClass::Whitespace);
        let a = skip_space(s, i + width);
        lemma_data_advances(s, a);
        lemma_span_end_bounds(s, a, CharClass::Lower);
    }
}

/// A function: its name of one or more capital letters, `:`, its operations
/// and `;`.
pub open spec fn function(s: Seq<char>, i: int) -> Parsed<(Seq<char>, Seq<OperationView>)> {
    let j = span_end(s, i, CharClass::Upper);
    let a = skip_space(s, j);
    if j == i {
        fail(ErrorKindView::ExpectedFunctionName, false, i)
    } else if !has_char(s, a, ':') {
        fail(ErrorKindView::ExpectedColon, true, a)
    } else {
        match operations(s, a + 1, ';', Seq::empty()) {
            Err(e) => Err(e),
            Ok((body, b)) => {
                let c = skip_space(s, b);
                if !has_char(s, c, ';') {
                    fail(ErrorKindView::ExpectedSemiColon, true, c)
                } else {
                    Ok(((s.subrange(i, j), body), c + 1))
                }
            },
        }
    }
}

/// A function that was read ends after its start and in the text.
pub proof fn lemma_function_advances(s: Seq<char>, i: int)
    requires
        0 <= i,
    ensures
        function(s, i) matches Ok((_, next)) ==> i < next <= s.len(),
{
    lemma_span_end_bounds(s, i, CharClass::Upper);
    let j = span_end(s, i, CharClass::Upper);
    lemma_span_end_bounds(s, j, CharClass::Whitespace);
    let a = skip_space(s, j);
    if j > i && has_char(s, a, ':') {
        lemma_operations_advance(s, a + 1, ';', Seq::empty());
        if let Ok((body, b)) = operations(s, a + 1, ';', Seq::empty()) {
            lemma_span_end_bounds(s, b, CharClass::Whitespace);
        }
    }
}

/// The functions of a class from `i` on, up to and with the `;` that ends
/// the class, `found` being those before `i`. No two functions of a class
/// have the same name.
pub open spec fn functions(s: Seq<char>, i: int, found: ClassView) -> Parsed<ClassView>
    decreases s.len() - i,
{
    let a = skip_space(s, i);
    if !(0 <= i <= s.len()) {
        fail(ErrorKindView::ExpectedFunctionName, false, i)
    } else if has_char(s, a, ';') {
        Ok((found, a + 1))
    } else {
        match function(s, a) {
            Err(e) => Err(e),
            Ok(((name, body), b)) => {
                proof {
                    lemma_span_end_bounds(s, i, CharClass::Whitespace);
                    lemma_function_advances(s, a);
                }
                if found.contains_key(name) {
                    fail(ErrorKindView::FunctionExists(name), true, b)
                } else {
                    functions(s, b, found.insert(name, body))
                }
            },
        }
    }
}

/// A class: its number, which fits into 32 bits, `:`, its functions and
/// `;`.
pub open spec fn class(s: Seq<char>, i: int) -> Parsed<(u32, ClassView)> {
    let j = span_end(s, i, CharClass::Digit);
    let a = skip_space(s, j);
    let number = decimal_value(s.subrange(i, j));
    if j == i {
        fail(ErrorKindView::ExpectedClassName, false, i)
    } else if !has_char(s, a, ':') {
        fail(ErrorKindView::ExpectedColon, false, a)
    } else if number > u32::MAX {
        fail(ErrorKindView::NumberParseError(too_large()), true, a + 1)
    } else {
        match functions(s, a + 1, Map::empty()) {
            Err(e) => Err(e),
            Ok((found, next)) => Ok(((number as u32, found), next)),
        }
    }
}

/// A top-level statement: a call.
pub open spec fn statement(s: Seq<char>, i: int) -> Parsed<(u32, Seq<char>)> {
    let j = span_end(s, i, CharClass::Digit);
    if j == i {
        fail(ErrorKindView::ExpectedCall, true, i)
    } else {
        call(s, i, j)
    }
}

/// The functions of a class that were read end after the position from which
/// they were read, and in the text.
pub proof fn lemma_functions_advance(s: Seq<char>, i: int, found: ClassView)
    ensures
        functions(s, i, found) matches Ok((_, next)) ==> i < next <= s.len(),
    decreases s.len() - i,
{
    lemma_span_end_bounds(s, i, CharClass::Whitespace);
    let a = skip_space(s, i);
    if 0 <= i <= s.len() && !has_char(s, a, ';') {
        lemma_function_advances(s, a);
        if let Ok(((name, body), b)) = function(s, a) {
            if !found.contains_key(name) {
                lemma_functions_advance(s, b, found.insert(name, body));
            }
        }
    }
}

/// A class that was read ends after its start and in the text.
pub proof fn lemma_class_advances(s: Seq<char>, i: int)
    requires
        0 <= i,
    ensures
        class(s, i) matches Ok((_, next)) ==> i < next <= s.len(),
{
    lemma_span_end_bounds(s, i, CharClass::Digit);
    let j = span_end(s, i, CharClass::Digit);
    lemma_span_end_bounds(s, j, CharClass::Whitespace);
    lemma_functions_advance(s, skip_space(s, j) + 1, Map::empty());
}

/// A top-level statement that was read ends after its start and in the
/// text.
pub proof fn lemma_statement_advances(s: Seq<char>, i: int)
    requires
        0 <= i,
    ensures
        statement(s, i) matches Ok((_, next)) ==> i < next <= s.len(),
{
    lemma_span_end_bounds(s, i, CharClass::Digit);
    let j = span_end(s, i, CharClass::Digit);
    if j > i {
        lemma_call_advances(s, i, j);
    }
}

/// The classes and top-level statements from `i` on to the end of the text,
/// added to those in `found`. Where a class with a failure that is not final
/// stands, a top-level statement is read in its place. No two classes of a
/// program have the same number: a class whose number another class before
/// it has is a failure for good, found at the end of the class.
pub open spec fn items(s: Seq<char>, i: int, found: ProgramView) -> Result<
    ProgramView,
    ParseErrorView,
>
    decreases s.len() - i,
{
    let a = skip_space(s, i);
    if !(0 <= i <= s.len()) || a >= s.len() {
        Ok(found)
    } else {
        proof {
            lemma_span_end_bounds(s, i, CharClass::Whitespace);
            lemma_class_advances(s, a);
            lemma_statement_advances(s, a);
        }
        match class(s, a) {
            Ok(((number, functions), next)) => if found.classes.contains_key(number) {
                Err(
                    ParseErrorView {
                        kind: ErrorKindView::ClassExists(number),
                        important: true,
                        position: next,
                    },
                )
            } else {
                items(
                    s,
                    next,
                    ProgramView {
                        classes: found.classes.insert(number, functions),
                        statements: found.statements,
                    },
                )
            },
            Err(e) => if e.important {
                Err(e)
            } else {
                match statement(s, a) {
                    Ok((call, next)) => items(
                        s,
                        next,
                        ProgramView {
                            classes: found.classes,
                            statements: found.statements.push(call),
                        },
                    ),
                    Err(e) => Err(e),
                }
            },
        }
    }
}

/// The program that a source text is, or the failure that reading it ends
/// in.
pub open spec fn program(s: Seq<char>) -> Result<ProgramView, ParseErrorView> {
    items(s, 0, ProgramView { classes: Map::empty(), statements: Seq::empty() })
}

} // verus!
