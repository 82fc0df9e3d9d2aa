//! The parser: executable functions that read the source text as the grammar
//! says.

use vstd::prelude::*;
use vstd::string::StringExecFns;
use crate::error::{ErrorKind, ParseError, ParseErrorView};
use crate::grammar;
use crate::grammar::{
    all_hex_digits, brace_end, decimal_value, digit_value, failed, found, has_char, has_pair,
    hex_digit_value, hex_value, in_class, is_hex_digit, span_end, CharClass, Operator,
};
use crate::program::{
    lemma_conditional_model, models, Class, Function, Operation, Program, ProgramView,
};
use crate::text::{chars_of, string_of};
use crate::value::Data;

verus! {

impl CharClass {
    /// Whether `c` belongs to this class.
    pub fn contains(self, c: char) -> (r: bool)
        ensures
            r == in_class(self, c),
    {
        match self {
            CharClass::Whitespace => c == ' ' || c == '\t' || c == '\r' || c == '\n',
            CharClass::Digit => '0' <= c && c <= '9',
            CharClass::Lower => 'a' <= c && c <= 'z',
            CharClass::Upper => 'A' <= c && c <= 'Z',
        }
    }
}

/// The failure of the given kind at the given position.
fn failure<T>(kind: ErrorKind, important: bool, position: usize) -> (r: Result<T, ParseError>)
    ensures
        r matches Err(e) && e.kind == kind && e.important == important && e.position == position,
{
    Err(ParseError { kind, important, position })
}

/// The end of the longest run of characters of `class` that starts at
/// `start`.
pub fn span(text: &[char], start: usize, class: CharClass) -> (end: usize)
    ensures
        end == span_end(text@, start as int, class),
        start <= end,
        start <= text@.len() ==> end <= text@.len(),
        start < end ==> end <= text@.len(),
        forall|j: int| start <= j < end ==> in_class(class, #[trigger] text@[j]),
{
    let mut i = start;
    while i < text.len() && class.contains(text[i])
        invariant
            start <= i,
            start < i ==> i <= text@.len(),
            span_end(text@, start as int, class) == span_end(text@, i as int, class),
        decreases text@.len() - i,
    {
        i += 1;
    }
    proof {
        grammar::lemma_span_end_bounds(text@, start as int, class);
    }
    i
}

/// Whether the character `c` stands at `i`.
pub fn at(text: &[char], i: usize, c: char) -> (r: bool)
    ensures
        r == has_char(text@, i as int, c),
        text@.len() <= usize::MAX,
{
    i < text.len() && text[i] == c
}

/// Whether the characters `c` and `d` stand at `i`, in this order.
pub fn at_pair(text: &[char], i: usize, c: char, d: char) -> (r: bool)
    ensures
        r == has_pair(text@, i as int, c, d),
        text@.len() <= usize::MAX,
{
    at(text, i, c) && at(text, i + 1, d)
}

/// The value of a run of digits grows with its length.
proof fn lemma_decimal_value_grows(s: Seq<char>, i: int, j: int, k: int)
    requires
        0 <= i <= j <= k <= s.len(),
    ensures
        decimal_value(s.subrange(i, j)) <= decimal_value(s.subrange(i, k)),
    decreases k - j,
{
    if j < k {
        lemma_decimal_value_grows(s, i, j, k - 1);
        assert(s.subrange(i, k).drop_last() =~= s.subrange(i, k - 1));
    }
}

/// The number that the digits `text[from..to]` denote, if it fits into 32
/// bits.
fn natural(text: &[char], from: usize, to: usize) -> (r: Option<u32>)
    requires
        from <= to <= text@.len(),
        forall|j: int| from <= j < to ==> in_class(CharClass::Digit, #[trigger] text@[j]),
    ensures
        match r {
            Some(n) => decimal_value(text@.subrange(from as int, to as int)) == n,
            None => decimal_value(text@.subrange(from as int, to as int)) > u32::MAX,
        },
{
    let mut value: u64 = 0;
    let mut i = from;
    while i < to
        invariant
            from <= i <= to <= text@.len(),
            forall|j: int| from <= j < to ==> in_class(CharClass::Digit, #[trigger] text@[j]),
            value == decimal_value(text@.subrange(from as int, i as int)),
            value <= u32::MAX,
        decreases to - i,
    {
        let digit = (text[i] as u32 - '0' as u32) as u64;
        proof {
            assert(in_class(CharClass::Digit, text@[i as int]));
            assert(text@.subrange(from as int, i + 1).drop_last() =~= text@.subrange(
                from as int,
                i as int,
            ));
            assert(digit == digit_value(text@[i as int]));
        }
        value = value * 10 + digit;
        i += 1;
        if value > u32::MAX as u64 {
            proof {
                lemma_decimal_value_grows(text@, from as int, i as int, to as int);
            }
            return None;
        }
    }
    Some(value as u32)
}

/// A variable name: one or more small letters.
pub fn var_name(text: &[char], start: usize) -> (r: Result<(String, usize), ParseError>)
    ensures
        match r {
            Ok((name, next)) => found(grammar::var_name(text@, start as int), name@, next as int)
                && start < next <= text@.len(),
            Err(e) => failed(grammar::var_name(text@, start as int), e@),
        },
{
    let end = span(text, start, CharClass::Lower);
    if end > start {
        Ok((string_of(text, start, end), end))
    } else {
        failure(ErrorKind::ExpectedVariableName, true, start)
    }
}

/// Whether `c` is a hexadecimal digit.
fn is_hex(c: char) -> (r: bool)
    ensures
        r == is_hex_digit(c),
{
    ('0' <= c && c <= '9') || ('a' <= c && c <= 'f') || ('A' <= c && c <= 'F')
}

/// The value of the hexadecimal digit `c`.
fn hex_digit(c: char) -> (r: u32)
    requires
        is_hex_digit(c),
    ensures
        r == hex_digit_value(c),
        r < 16,
{
    if '0' <= c && c <= '9' {
        c as u32 - '0' as u32
    } else if 'a' <= c && c <= 'f' {
        c as u32 - 'a' as u32 + 10
    } else {
        c as u32 - 'A' as u32 + 10
    }
}

/// The number 16 to the power of `n`.
spec fn sixteen_to(n: nat) -> nat
    decreases n,
{
    if n == 0 {
        1
    } else {
        16 * sixteen_to((n - 1) as nat)
    }
}

/// Up to six hexadecimal digits denote a number below 16 to the power of
/// six.
proof fn lemma_sixteen_to_six(n: nat)
    requires
        n <= 6,
    ensures
        sixteen_to(n) <= 0x1000000,
{
    reveal_with_fuel(sixteen_to, 8);
}

/// What stands after the backslash of an escape in a string literal.
pub fn escape(text: &[char], start: usize) -> (r: Result<(Option<char>, usize), ParseError>)
    ensures
        match r {
            Ok((c, next)) => found(grammar::escape(text@, start as int), c, next as int) && start
                <= next && (start <= text@.len() ==> next <= text@.len()),
            Err(e) => failed(grammar::escape(text@, start as int), e@),
        },
{
    if at(text, start, 'n') {
        Ok((Some('\n'), start + 1))
    } else if at(text, start, 't') {
        Ok((Some('\t'), start + 1))
    } else if at(text, start, 'r') {
        Ok((Some('\r'), start + 1))
    } else if at(text, start, 'x') {
        if text.len() - start < 3 {
            return failure(ErrorKind::UnexpectedEOF, true, start + 1);
        }
        let high = text[start + 1];
        let low = text[start + 2];
        if !(is_hex(high) && is_hex(low)) {
            return failure(ErrorKind::InvalidAsciiEscape, true, start + 3);
        }
        let code = 16 * hex_digit(high) + hex_digit(low);
        proof {
            let digits = text@.subrange(start + 1, start + 3);
            assert(digits.drop_last() =~= seq![high]);
            assert(seq![high].drop_last() =~= Seq::<char>::empty());
            assert(hex_value(digits) == code) by {
                reveal_with_fuel(hex_value, 3);
            }
        }
        match char::from_u32(code) {
            Some(c) => Ok((Some(c), start + 3)),
            None => failure(ErrorKind::InvalidAsciiEscape, true, start + 3),
        }
    } else if at(text, start, 'u') {
        if !at(text, start + 1, '{') {
            return failure(ErrorKind::InvalidUnicodeEscape, true, start + 1);
        }
        let first = start + 2;
        let mut end = first;
        let mut hex = true;
        let mut code: u32 = 0;
        while end - first < 6 && end < text.len() && text[end] != '}'
            invariant
                first <= end <= text@.len(),
                end - first <= 6,
                brace_end(text@, first as int, 6) == brace_end(
                    text@,
                    end as int,
                    (6 - (end - first)) as nat,
                ),
                hex == all_hex_digits(text@.subrange(first as int, end as int)),
                hex ==> code == hex_value(text@.subrange(first as int, end as int)),
                code < sixteen_to((end - first) as nat),
            decreases text@.len() - end,
        {
            let c = text[end];
            proof {
                lemma_sixteen_to_six((end - first) as nat);
                let before = text@.subrange(first as int, end as int);
                let after = text@.subrange(first as int, end + 1);
                assert(after.drop_last() =~= before);
                assert(after.last() == c);
                assert(all_hex_digits(after) == (all_hex_digits(before) && is_hex_digit(c))) by {
                    if all_hex_digits(before) && is_hex_digit(c) {
                        assert forall|i: int| 0 <= i < after.len() implies is_hex_digit(
                            #[trigger] after[i],
                        ) by {
                            if i < before.len() {
                                assert(after[i] == before[i]);
                            }
                        }
                    }
                    if all_hex_digits(after) {
                        assert(is_hex_digit(after[after.len() - 1]));
                        assert forall|i: int| 0 <= i < before.len() implies is_hex_digit(
                            #[trigger] before[i],
                        ) by {
                            assert(after[i] == before[i]);
                        }
                    }
                }
            }
            if hex && is_hex(c) {
                code = code * 16 + hex_digit(c);
            } else {
                hex = false;
                code = 0;
            }
            end += 1;
        }
        proof {
            lemma_sixteen_to_six((end - first) as nat);
        }
        if !at(text, end, '}') {
            return failure(ErrorKind::InvalidUnicodeEscape, true, end);
        }
        if !hex {
            return failure(ErrorKind::InvalidUnicodeEscape, true, end + 1);
        }
        if end == first {
            return failure(
                ErrorKind::NumberParseError(
                    String::from_str("cannot parse integer from empty string"),
                ),
                true,
                end + 1,
            );
        }
        match char::from_u32(code) {
            Some(c) => Ok((Some(c), end + 1)),
            None => failure(ErrorKind::InvalidUnicodeEscape, true, end + 1),
        }
    } else if at(text, start, '0') {
        Ok((Some('\0'), start + 1))
    } else if at(text, start, '"') {
        Ok((Some('"'), start + 1))
    } else if at(text, start, '\\') {
        Ok((Some('\\'), start + 1))
    } else {
        Ok((None, start))
    }
}

/// The rest of a string literal after its opening quote: what the literal
/// denotes.
pub fn string(text: &[char], start: usize) -> (r: Result<(String, usize), ParseError>)
    ensures
        match r {
            Ok((value, next)) => found(
                grammar::string_rest(text@, start as int, Seq::empty()),
                value@,
                next as int,
            ) && start < next <= text@.len(),
            Err(e) => failed(grammar::string_rest(text@, start as int, Seq::empty()), e@),
        },
{
    if start > text.len() {
        return failure(ErrorKind::UnexpectedEOF, true, start);
    }
    let mut value = String::new();
    let mut i = start;
    loop
        invariant
            start <= i <= text@.len(),
            grammar::string_rest(text@, start as int, Seq::empty()) == grammar::string_rest(
                text@,
                i as int,
                value@,
            ),
        decreases text@.len() - i,
    {
        if i >= text.len() {
            return failure(ErrorKind::UnexpectedEOF, true, i);
        }
        let c = text[i];
        if c == '"' {
            return Ok((value, i + 1));
        }
        if c == '\\' {
            match escape(text, i + 1) {
                Err(e) => {
                    return Err(e);
                },
                Ok((escaped, next)) => {
                    match escaped {
                        Some(e) => {
                            value.push(e);
                        },
                        None => {},
                    }
                    i = next;
                },
            }
        } else {
            value.push(c);
            i += 1;
        }
    }
}

/// A literal.
pub fn data(text: &[char], start: usize) -> (r: Result<(Data, usize), ParseError>)
    ensures
        match r {
            Ok((value, next)) => found(grammar::data(text@, start as int), value@, next as int)
                && start < next <= text@.len(),
            Err(e) => failed(grammar::data(text@, start as int), e@),
        },
{
    if at(text, start, '"') {
        match string(text, start + 1) {
            Ok((value, next)) => Ok((Data::Str(value), next)),
            Err(e) => Err(e),
        }
    } else if at_pair(text, start, 't', 'r') && at_pair(text, start + 2, 'u', 'e') {
        Ok((Data::Bool(true), start + 4))
    } else if at_pair(text, start, 'f', 'a') && at_pair(text, start + 2, 'l', 's') && at(
        text,
        start + 4,
        'e',
    ) {
        Ok((Data::Bool(false), start + 5))
    } else {
        let name_end = span(text, start, CharClass::Lower);
        if name_end > start {
            return Ok((Data::Var(string_of(text, start, name_end)), name_end));
        }
        let whole = span(text, start, CharClass::Digit);
        let end = if at(text, whole, '.') {
            span(text, whole + 1, CharClass::Digit)
        } else {
            whole
        };
        if end == start {
            failure(ErrorKind::ExpectedNumber, true, start)
        } else if end == start + 1 && at(text, start, '.') {
            failure(
                ErrorKind::NumberParseError(String::from_str("invalid float literal")),
                true,
                end,
            )
        } else {
            Ok((Data::Number(string_of(text, start, end)), end))
        }
    }
}

/// A call, of which the digits `text[start..digits_end]` have been read.
fn call(text: &[char], start: usize, digits_end: usize) -> (r: Result<
    ((u32, String), usize),
    ParseError,
>)
    requires
        start <= digits_end <= text@.len(),
        forall|j: int| start <= j < digits_end ==> in_class(CharClass::Digit, #[trigger] text@[j]),
    ensures
        match r {
            Ok(((class, name), next)) => found(
                grammar::call(text@, start as int, digits_end as int),
                (class, name@),
                next as int,
            ) && digits_end < next <= text@.len(),
            Err(e) => failed(grammar::call(text@, start as int, digits_end as int), e@),
        },
{
    let class = match natural(text, start, digits_end) {
        Some(n) => n,
        None => {
            return failure(
                ErrorKind::NumberParseError(
                    String::from_str("number too large to fit in target type"),
                ),
                true,
                digits_end,
            );
        },
    };
    let arrow = span(text, digits_end, CharClass::Whitespace);
    if !at(text, arrow, '>') {
        return failure(ErrorKind::ExpectedCall, true, arrow);
    }
    let name_start = span(text, arrow + 1, CharClass::Whitespace);
    let name_end = span(text, name_start, CharClass::Upper);
    if name_end == name_start {
        return failure(ErrorKind::ExpectedFunctionName, false, name_start);
    }
    Ok(((class, string_of(text, name_start, name_end)), name_end))
}

/// The operator that stands at `i` and its length, if one stands there.
pub fn operator(text: &[char], i: usize) -> (r: Option<(Operator, usize)>)
    ensures
        match r {
            Some((operator, width)) => grammar::operator_at(text@, i as int) == Some(
                (operator, width as int),
            ) && 1 <= width <= 2 && i + width <= text@.len() <= usize::MAX,
            None => grammar::operator_at(text@, i as int) is None,
        },
{
    if at_pair(text, i, '=', '=') {
        Some((Operator::Equal, 2))
    } else if at_pair(text, i, '>', '=') {
        Some((Operator::GreaterEqual, 2))
    } else if at_pair(text, i, '<', '=') {
        Some((Operator::LessEqual, 2))
    } else if at(text, i, '>') {
        Some((Operator::Greater, 1))
    } else if at(text, i, '<') {
        Some((Operator::Less, 1))
    } else if at_pair(text, i, '!', '=') {
        Some((Operator::NotEqual, 2))
    } else if at(text, i, '!') {
        Some((Operator::Not, 1))
    } else if at(text, i, '|') {
        Some((Operator::Or, 1))
    } else if at(text, i, '&') {
        Some((Operator::And, 1))
    } else if at(text, i, '=') {
        Some((Operator::Assign, 1))
    } else if at(text, i, '+') {
        Some((Operator::Add, 1))
    } else if at(text, i, '-') {
        Some((Operator::Sub, 1))
    } else if at(text, i, '*') {
        Some((Operator::Mul, 1))
    } else if at_pair(text, i, '/', '/') {
        Some((Operator::Mod, 2))
    } else if at(text, i, '/') {
        Some((Operator::Div, 1))
    } else {
        None
    }
}

/// The operation that `operator` makes of the variables `left` and `right`,
/// for every operator but `Assign`, which takes a literal.
pub fn binary(operator: Operator, left: String, right: String) -> (r: Operation)
    requires
        !(operator is Assign),
    ensures
        r@ == grammar::binary(operator, left@, right@),
{
    match operator {
        Operator::Equal => Operation::Equal(left, right),
        Operator::GreaterEqual => Operation::GreaterEqual(left, right),
        Operator::LessEqual => Operation::LessEqual(left, right),
        Operator::Greater => Operation::Greater(left, right),
        Operator::Less => Operation::Less(left, right),
        Operator::NotEqual => Operation::NotEqual(left, right),
        Operator::Or => Operation::Or(left, right),
        Operator::And => Operation::And(left, right),
        Operator::Add => Operation::Add(left, right),
        Operator::Sub => Operation::Sub(left, right),
        Operator::Mul => Operation::Mul(left, right),
        Operator::Mod => Operation::Mod(left, right),
        Operator::Div => Operation::Div(left, right),
        Operator::Not => Operation::Not(left),
        Operator::Assign => vstd::pervasive::unreached(),
    }
}

/// An operation that starts with the variable `name`, `start` being the
/// position of the first character after the name that is not white space.
pub fn simple(text: &[char], name: String, start: usize) -> (r: Result<
    (Operation, usize),
    ParseError,
>)
    ensures
        match r {
            Ok((op, next)) => found(
                grammar::simple(text@, name@, start as int),
                op@,
                next as int,
            ) && start <= next <= text@.len(),
            Err(e) => failed(grammar::simple(text@, name@, start as int), e@),
        },
{
    if at(text, start, ',') || at(text, start, ';') {
        return Ok((Operation::Print(name), start));
    }
    match operator(text, start) {
        None => failure(ErrorKind::ExpectedOperation, true, start),
        Some((operator, width)) => {
            match operator {
                Operator::Not => Ok((Operation::Not(name), start + width)),
                Operator::Assign => {
                    let value_start = span(text, start + width, CharClass::Whitespace);
                    match data(text, value_start) {
                        Ok((value, next)) => Ok((Operation::Assign(name, value), next)),
                        Err(e) => Err(e),
                    }
                },
                _ => {
                    let other_start = span(text, start + width, CharClass::Whitespace);
                    match var_name(text, other_start) {
                        Ok((other, next)) => Ok((binary(operator, name, other), next)),
                        Err(e) => Err(e),
                    }
                },
            }
        },
    }
}

/// An operation.
pub fn operation(text: &[char], start: usize) -> (r: Result<(Operation, usize), ParseError>)
    ensures
        match r {
            Ok((op, next)) => found(grammar::operation(text@, start as int), op@, next as int)
                && start < next <= text@.len(),
            Err(e) => failed(grammar::operation(text@, start as int), e@),
        },
    decreases text@.len() - start, 0int,
{
    if at(text, start, '(') {
        let a = span(text, start + 1, CharClass::Whitespace);
        let (condition, b) = match operation(text, a) {
            Ok(parsed) => parsed,
            Err(e) => {
                return Err(e);
            },
        };
        let c = span(text, b, CharClass::Whitespace);
        if !at(text, c, ')') {
            return failure(ErrorKind::ExpectedParenthesisEnd, true, c);
        }
        let d = span(text, c + 1, CharClass::Whitespace);
        if !at(text, d, '?') {
            return failure(ErrorKind::ExpectedConditionalBlock, true, d);
        }
        let e = span(text, d + 1, CharClass::Whitespace);
        if !at(text, e, '{') {
            return failure(ErrorKind::ExpectedConditionalBlock, true, e);
        }
        let (then_branch, f) = match operations(text, e + 1, '}') {
            Ok(parsed) => parsed,
            Err(e) => {
                return Err(e);
            },
        };
        let g = span(text, f, CharClass::Whitespace);
        if !at(text, g, '}') {
            return failure(ErrorKind::ExpectedConditionalBlockEnd, true, g);
        }
        let h = span(text, g + 1, CharClass::Whitespace);
        if !at(text, h, ':') {
            let op = Operation::Conditional {
                condition: Box::new(condition),
                then_branch,
                else_branch: None,
            };
            proof {
                lemma_conditional_model(op);
            }
            return Ok((op, h));
        }
        let k = span(text, h + 1, CharClass::Whitespace);
        if !at(text, k, '{') {
            return failure(ErrorKind::ExpectedConditionalOtherwiseBlock, true, k);
        }
        let (else_branch, m) = match operations(text, k + 1, '}') {
            Ok(parsed) => parsed,
            Err(e) => {
                return Err(e);
            },
        };
        let n = span(text, m, CharClass::Whitespace);
        if !at(text, n, '}') {
            return failure(ErrorKind::ExpectedConditionalOtherwiseBlockEnd, true, n);
        }
        let op = Operation::Conditional {
            condition: Box::new(condition),
            then_branch,
            else_branch: Some(else_branch),
        };
        proof {
            lemma_conditional_model(op);
        }
        Ok((op, n + 1))
    } else {
        let name_end = span(text, start, CharClass::Lower);
        if name_end > start {
            let name = string_of(text, start, name_end);
            let after = span(text, name_end, CharClass::Whitespace);
            return simple(text, name, after);
        }
        let digits_end = span(text, start, CharClass::Digit);
        if digits_end > start {
            match call(text, start, digits_end) {
                Ok(((class, name), next)) => Ok((Operation::Call(class, name), next)),
                Err(e) => Err(e),
            }
        } else {
            failure(ErrorKind::ExpectedOperation, true, start)
        }
    }
}

/// The operations of a function or of a branch, up to and without the
/// character `close` that ends them.
pub fn operations(text: &[char], start: usize, close: char) -> (r: Result<
    (Vec<Operation>, usize),
    ParseError,
>)
    ensures
        match r {
            Ok((ops, next)) => found(
                grammar::operations(text@, start as int, close, Seq::empty()),
                models(ops@),
                next as int,
            ) && start <= next <= text@.len(),
            Err(e) => failed(grammar::operations(text@, start as int, close, Seq::empty()), e@),
        },
    decreases text@.len() - start, 1int,
{
    if start > text.len() {
        return failure(ErrorKind::ExpectedOperation, true, start);
    }
    let mut ops: Vec<Operation> = Vec::new();
    let mut i = start;
    assert(models(ops@) =~= Seq::empty());
    loop
        invariant
            start <= i <= text@.len(),
            grammar::operations(text@, start as int, close, Seq::empty()) == grammar::operations(
                text@,
                i as int,
                close,
                models(ops@),
            ),
        decreases text@.len() - i,
    {
        let a = span(text, i, CharClass::Whitespace);
        if at(text, a, close) {
            return Ok((ops, a));
        }
        let (op, b) = match operation(text, a) {
            Ok(parsed) => parsed,
            Err(e) => {
                return Err(e);
            },
        };
        let ghost before = models(ops@);
        ops.push(op);
        assert(models(ops@) =~= before.push(op@));
        let c = span(text, b, CharClass::Whitespace);
        if at(text, c, ',') {
            i = c + 1;
        } else {
            return Ok((ops, c));
        }
    }
}

/// A function: its name and its operations.
pub fn function(text: &[char], start: usize) -> (r: Result<((String, Function), usize), ParseError>)
    ensures
        match r {
            Ok(((name, body), next)) => found(
                grammar::function(text@, start as int),
                (name@, body@),
                next as int,
            ) && start < next <= text@.len(),
            Err(e) => failed(grammar::function(text@, start as int), e@),
        },
{
    let name_end = span(text, start, CharClass::Upper);
    if name_end == start {
        return failure(ErrorKind::ExpectedFunctionName, false, start);
    }
    let colon = span(text, name_end, CharClass::Whitespace);
    if !at(text, colon, ':') {
        return failure(ErrorKind::ExpectedColon, true, colon);
    }
    let (operations, body_end) = match operations(text, colon + 1, ';') {
        Ok(parsed) => parsed,
        Err(e) => {
            return Err(e);
        },
    };
    let end = span(text, body_end, CharClass::Whitespace);
    if !at(text, end, ';') {
        return failure(ErrorKind::ExpectedSemiColon, true, end);
    }
    Ok(((string_of(text, start, name_end), Function { operations }), end + 1))
}

/// A class: its number and its functions.
#[verifier::loop_isolation(false)]
pub fn class(text: &[char], start: usize) -> (r: Result<((u32, Class), usize), ParseError>)
    ensures
        match r {
            Ok(((number, class), next)) => found(
                grammar::class(text@, start as int),
                (number, class@),
                next as int,
            ) && class.wf() && start < next <= text@.len(),
            Err(e) => failed(grammar::class(text@, start as int), e@),
        },
{
    let digits_end = span(text, start, CharClass::Digit);
    if digits_end == start {
        return failure(ErrorKind::ExpectedClassName, false, start);
    }
    let colon = span(text, digits_end, CharClass::Whitespace);
    if !at(text, colon, ':') {
        return failure(ErrorKind::ExpectedColon, false, colon);
    }
    let number = match natural(text, start, digits_end) {
        Some(n) => n,
        None => {
            return failure(
                ErrorKind::NumberParseError(
                    String::from_str("number too large to fit in target type"),
                ),
                true,
                colon + 1,
            );
        },
    };
    let mut class = Class::new();
    let mut i = colon + 1;
    loop
        invariant
            colon + 1 <= i <= text@.len(),
            class.wf(),
            grammar::functions(text@, colon + 1, Map::empty()) == grammar::functions(
                text@,
                i as int,
                class@,
            ),
        decreases text@.len() - i,
    {
        let a = span(text, i, CharClass::Whitespace);
        if at(text, a, ';') {
            return Ok(((number, class), a + 1));
        }
        let ((name, body), next) = match function(text, a) {
            Ok(parsed) => parsed,
            Err(e) => {
                return Err(e);
            },
        };
        if class.contains(&name) {
            return failure(ErrorKind::FunctionExists(name), true, next);
        }
        class.define(name, body);
        i = next;
    }
}

/// A top-level statement: a call.
pub fn statement(text: &[char], start: usize) -> (r: Result<((u32, String), usize), ParseError>)
    ensures
        match r {
            Ok(((class, name), next)) => found(
                grammar::statement(text@, start as int),
                (class, name@),
                next as int,
            ) && start < next <= text@.len(),
            Err(e) => failed(grammar::statement(text@, start as int), e@),
        },
{
    let digits_end = span(text, start, CharClass::Digit);
    if digits_end == start {
        failure(ErrorKind::ExpectedCall, true, start)
    } else {
        call(text, start, digits_end)
    }
}

/// Reads a source text as a program: its classes and its top-level
/// statements, in any order.
///
/// At each place a class is tried first. Where that fails and the failure is
/// not final, a top-level statement is read from the same place; every other
/// failure ends the parse, and so does a class whose number an earlier class
/// has.
pub fn program(source: &str) -> (r: Result<Program, ParseError>)
    ensures
        match r {
            Ok(program) => program.wf() && grammar::program(source@) == Ok::<
                ProgramView,
                ParseErrorView,
            >(program@),
            Err(e) => grammar::program(source@) == Err::<ProgramView, ParseErrorView>(
                e@,
            ),
        },
{
    broadcast use vstd::std_specs::hash::group_hash_axioms;

    let chars = chars_of(source);
    let text = chars.as_slice();
    let mut program = Program::new();
    let mut i: usize = 0;
    assert(program@ == ProgramView { classes: Map::empty(), statements: Seq::empty() });
    loop
        invariant
            i <= text@.len(),
            text@ == source@,
            program.wf(),
            grammar::program(source@) == grammar::items(text@, i as int, program@),
        decreases text@.len() - i,
    {
        let a = span(text, i, CharClass::Whitespace);
        if a >= text.len() {
            return Ok(program);
        }
        let ghost before = program@;
        match class(text, a) {
            Ok(((number, class), next)) => {
                if program.classes.contains_key(&number) {
                    return failure(ErrorKind::ClassExists(number), true, next);
                }
                program.classes.insert(number, class);
                assert(program@.classes =~= before.classes.insert(number, class@));
                assert(program@.statements =~= before.statements);
                i = next;
            },
            Err(e) => {
                if e.important {
                    return Err(e);
                }
                match statement(text, a) {
                    Ok(((class, name), next)) => {
                        let ghost call = (class, name@);
                        program.statements.push((class, name));
                        assert(program@.statements =~= before.statements.push(call));
                        assert(program@.classes =~= before.classes);
                        i = next;
                    },
                    Err(e) => {
                        return Err(e);
                    },
                }
            },
        }
    }
}

} // verus!
