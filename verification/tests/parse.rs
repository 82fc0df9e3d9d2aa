use happy_lang::grammar::{CharClass, Operator};
use happy_lang::parser;
use happy_lang::parser::{
    at, at_pair, binary, class, data, escape, function, operation, operations, operator, simple,
    span, statement, string, var_name,
};
use happy_lang::program::{Function, Operation};
use happy_lang::text::chars_of;
use happy_lang::value::Data;

fn name(text: &str) -> String {
    text.to_string()
}

fn body(source: &str) -> Vec<Operation> {
    let text = chars_of(&format!("{};", source));
    let (found, next) = operations(&text, 0, ';').unwrap();
    assert_eq!(next, text.len() - 1);
    found
}

#[test]
fn parses_a_class_and_a_statement() {
    let program = parser::program("1: A: x=\"hello\", x, ;; 1>A").unwrap();
    assert_eq!(program.statements, vec![(1, name("A"))]);
    assert_eq!(program.classes.len(), 1);
    let class = program.classes.get(&1).unwrap();
    let function = class.get(&name("A")).unwrap();
    assert_eq!(
        function.operations,
        vec![Operation::Assign(name("x"), Data::Str(name("hello"))), Operation::Print(name("x"))]
    );
}

#[test]
fn number_literal_keeps_its_notation() {
    let program = parser::program("1: A: x=3.5;;").unwrap();
    let function = program.classes.get(&1).unwrap().get(&name("A")).unwrap();
    match &function.operations[0] {
        Operation::Assign(target, Data::Number(notation)) => {
            assert_eq!(target, "x");
            assert_eq!(notation, "3.5");
            assert_eq!(notation.parse::<f64>().unwrap(), 3.5);
        }
        other => panic!("unexpected operation {:?}", other),
    }
}

#[test]
fn unicode_escapes_denote_characters() {
    assert_eq!(
        body("x=\"a\\u{48}\\u{49}b\""),
        vec![Operation::Assign(name("x"), Data::Str(name("aHIb")))]
    );
}

#[test]
fn empty_text_is_the_empty_program() {
    let program = parser::program("").unwrap();
    assert!(program.classes.is_empty());
    assert!(program.statements.is_empty());
    let program = parser::program(" \t\r\n").unwrap();
    assert!(program.classes.is_empty());
    assert!(program.statements.is_empty());
}

#[test]
fn every_operator_gives_its_operation() {
    let x = || name("x");
    let y = || name("y");
    assert_eq!(body("x+y"), vec![Operation::Add(x(), y())]);
    assert_eq!(body("x-y"), vec![Operation::Sub(x(), y())]);
    assert_eq!(body("x*y"), vec![Operation::Mul(x(), y())]);
    assert_eq!(body("x/y"), vec![Operation::Div(x(), y())]);
    assert_eq!(body("x//y"), vec![Operation::Mod(x(), y())]);
    assert_eq!(body("x==y"), vec![Operation::Equal(x(), y())]);
    assert_eq!(body("x!=y"), vec![Operation::NotEqual(x(), y())]);
    assert_eq!(body("x>y"), vec![Operation::Greater(x(), y())]);
    assert_eq!(body("x<y"), vec![Operation::Less(x(), y())]);
    assert_eq!(body("x>=y"), vec![Operation::GreaterEqual(x(), y())]);
    assert_eq!(body("x<=y"), vec![Operation::LessEqual(x(), y())]);
    assert_eq!(body("x&y"), vec![Operation::And(x(), y())]);
    assert_eq!(body("x|y"), vec![Operation::Or(x(), y())]);
    assert_eq!(body("x!"), vec![Operation::Not(x())]);
    assert_eq!(body("x"), vec![Operation::Print(x())]);
    assert_eq!(body("x=y"), vec![Operation::Assign(x(), Data::Var(y()))]);
    assert_eq!(body("12>AB"), vec![Operation::Call(12, name("AB"))]);
}

#[test]
fn operators_are_tried_in_their_order() {
    let text = chars_of("== >= <= > < != ! | & = + - * // /");
    assert_eq!(operator(&text, 0), Some((Operator::Equal, 2)));
    assert_eq!(operator(&text, 3), Some((Operator::GreaterEqual, 2)));
    assert_eq!(operator(&text, 6), Some((Operator::LessEqual, 2)));
    assert_eq!(operator(&text, 9), Some((Operator::Greater, 1)));
    assert_eq!(operator(&text, 11), Some((Operator::Less, 1)));
    assert_eq!(operator(&text, 13), Some((Operator::NotEqual, 2)));
    assert_eq!(operator(&text, 16), Some((Operator::Not, 1)));
    assert_eq!(operator(&text, 18), Some((Operator::Or, 1)));
    assert_eq!(operator(&text, 20), Some((Operator::And, 1)));
    assert_eq!(operator(&text, 22), Some((Operator::Assign, 1)));
    assert_eq!(operator(&text, 24), Some((Operator::Add, 1)));
    assert_eq!(operator(&text, 26), Some((Operator::Sub, 1)));
    assert_eq!(operator(&text, 28), Some((Operator::Mul, 1)));
    assert_eq!(operator(&text, 30), Some((Operator::Mod, 2)));
    assert_eq!(operator(&text, 33), Some((Operator::Div, 1)));
    assert_eq!(operator(&text, 2), None);
    assert_eq!(operator(&text, 34), None);
    assert_eq!(operator(&text, 100), None);
}

#[test]
fn binary_builds_the_operation_of_the_operator() {
    assert_eq!(binary(Operator::Add, name("a"), name("b")), Operation::Add(name("a"), name("b")));
    assert_eq!(binary(Operator::Mod, name("a"), name("b")), Operation::Mod(name("a"), name("b")));
    assert_eq!(
        binary(Operator::LessEqual, name("a"), name("b")),
        Operation::LessEqual(name("a"), name("b"))
    );
    assert_eq!(binary(Operator::Not, name("a"), name("b")), Operation::Not(name("a")));
}

#[test]
fn white_space_may_stand_between_tokens() {
    let source = "\n 7 :\n\tAB :\r\n x = 1 ,\n y  >=  x ,\n 7 > AB\n ;\n ;\n 7 >\n AB ";
    let program = parser::program(source).unwrap();
    assert_eq!(program.statements, vec![(7, name("AB"))]);
    let function = program.classes.get(&7).unwrap().get(&name("AB")).unwrap();
    assert_eq!(
        function.operations,
        vec![
            Operation::Assign(name("x"), Data::Number(name("1"))),
            Operation::GreaterEqual(name("y"), name("x")),
            Operation::Call(7, name("AB")),
        ]
    );
}

#[test]
fn comma_may_follow_the_last_operation() {
    assert_eq!(body("x,y,"), vec![Operation::Print(name("x")), Operation::Print(name("y"))]);
    assert_eq!(body("x,y"), vec![Operation::Print(name("x")), Operation::Print(name("y"))]);
    assert_eq!(body(""), vec![]);
}

#[test]
fn conditional_without_second_branch() {
    assert_eq!(
        body("(x==y)?{x, y,}"),
        vec![Operation::Conditional {
            condition: Box::new(Operation::Equal(name("x"), name("y"))),
            then_branch: vec![Operation::Print(name("x")), Operation::Print(name("y"))],
            else_branch: None,
        }]
    );
}

#[test]
fn conditional_with_second_branch() {
    assert_eq!(
        body("( x! ) ? { } : { 1>A }"),
        vec![Operation::Conditional {
            condition: Box::new(Operation::Not(name("x"))),
            then_branch: vec![],
            else_branch: Some(vec![Operation::Call(1, name("A"))]),
        }]
    );
}

#[test]
fn conditionals_nest() {
    assert_eq!(
        body("((a&b)?{c=1}:{c=2})?{(d!)?{e,}}, f"),
        vec![
            Operation::Conditional {
                condition: Box::new(Operation::Conditional {
                    condition: Box::new(Operation::And(name("a"), name("b"))),
                    then_branch: vec![Operation::Assign(name("c"), Data::Number(name("1")))],
                    else_branch: Some(vec![Operation::Assign(
                        name("c"),
                        Data::Number(name("2"))
                    )]),
                }),
                then_branch: vec![Operation::Conditional {
                    condition: Box::new(Operation::Not(name("d"))),
                    then_branch: vec![Operation::Print(name("e"))],
                    else_branch: None,
                }],
                else_branch: None,
            },
            Operation::Print(name("f")),
        ]
    );
}

#[test]
fn conditional_ends_after_the_white_space_that_follows_it() {
    let text = chars_of("(x!)?{}  ,");
    let (_, next) = operation(&text, 0).unwrap();
    assert_eq!(next, 9);
    let text = chars_of("(x!)?{}:{}  ,");
    let (_, next) = operation(&text, 0).unwrap();
    assert_eq!(next, 10);
}

#[test]
fn literals() {
    let read = |source: &str| data(&chars_of(source), 0).unwrap();
    assert_eq!(read("true"), (Data::Bool(true), 4));
    assert_eq!(read("false"), (Data::Bool(false), 5));
    assert_eq!(read("trueish"), (Data::Bool(true), 4));
    assert_eq!(read("tru,"), (Data::Var(name("tru")), 3));
    assert_eq!(read("fals"), (Data::Var(name("fals")), 4));
    assert_eq!(read("abc1"), (Data::Var(name("abc")), 3));
    assert_eq!(read("12"), (Data::Number(name("12")), 2));
    assert_eq!(read("007,"), (Data::Number(name("007")), 3));
    assert_eq!(read("3.5"), (Data::Number(name("3.5")), 3));
    assert_eq!(read("3."), (Data::Number(name("3.")), 2));
    assert_eq!(read(".5"), (Data::Number(name(".5")), 2));
    assert_eq!(read("1.2.3"), (Data::Number(name("1.2")), 3));
    assert_eq!(read("\"\""), (Data::Str(name("")), 2));
    assert_eq!(read("\"a b\"c"), (Data::Str(name("a b")), 5));
}

#[test]
fn number_notations_are_numbers_to_the_host() {
    for notation in ["12", "007", "3.5", "3.", ".5"] {
        let (value, _) = data(&chars_of(notation), 0).unwrap();
        match value {
            Data::Number(text) => assert!(text.parse::<f64>().is_ok()),
            other => panic!("unexpected literal {:?}", other),
        }
    }
}

#[test]
fn escapes_in_strings() {
    let read = |source: &str| string(&chars_of(source), 0).unwrap();
    assert_eq!(read("a\\nb\""), (name("a\nb"), 5));
    assert_eq!(read("\\t\\r\\0\""), (name("\t\r\0"), 7));
    assert_eq!(read("\\\"\\\\\""), (name("\"\\"), 5));
    assert_eq!(read("\\x41\\x7a\""), (name("Az"), 9));
    assert_eq!(read("\\xe9\""), (name("\u{e9}"), 5));
    assert_eq!(read("\\u{1F600}\""), (name("\u{1F600}"), 10));
    assert_eq!(read("\\u{10FFFF}\""), (name("\u{10FFFF}"), 11));
    assert_eq!(read("\\u{0}\""), (name("\0"), 6));
    assert_eq!(read("\\u{e9}\\u{E9}\""), (name("\u{e9}\u{e9}"), 13));
    assert_eq!(read("\\qx\""), (name("qx"), 4));
    assert_eq!(read("\u{e9}\u{1F600}\""), (name("\u{e9}\u{1F600}"), 3));
}

#[test]
fn escape_gives_the_character_and_its_end() {
    let read = |source: &str| escape(&chars_of(source), 0).unwrap();
    assert_eq!(read("n"), (Some('\n'), 1));
    assert_eq!(read("t"), (Some('\t'), 1));
    assert_eq!(read("r"), (Some('\r'), 1));
    assert_eq!(read("0"), (Some('\0'), 1));
    assert_eq!(read("\""), (Some('"'), 1));
    assert_eq!(read("\\"), (Some('\\'), 1));
    assert_eq!(read("x4A"), (Some('J'), 3));
    assert_eq!(read("xff"), (Some('\u{ff}'), 3));
    assert_eq!(read("u{48}"), (Some('H'), 5));
    assert_eq!(read("u{D7FF}"), (Some('\u{D7FF}'), 7));
    assert_eq!(read("u{E000}"), (Some('\u{E000}'), 7));
    assert_eq!(read("q"), (None, 0));
    assert_eq!(read(""), (None, 0));
}

#[test]
fn names_are_runs_of_letters() {
    assert_eq!(var_name(&chars_of("abc d"), 0).unwrap(), (name("abc"), 3));
    assert_eq!(var_name(&chars_of("abcD"), 1).unwrap(), (name("bc"), 3));
    let text = chars_of("  ab12 CD\n");
    assert_eq!(span(&text, 0, CharClass::Whitespace), 2);
    assert_eq!(span(&text, 2, CharClass::Lower), 4);
    assert_eq!(span(&text, 4, CharClass::Digit), 6);
    assert_eq!(span(&text, 7, CharClass::Upper), 9);
    assert_eq!(span(&text, 9, CharClass::Whitespace), 10);
    assert_eq!(span(&text, 2, CharClass::Upper), 2);
    assert_eq!(span(&text, 10, CharClass::Lower), 10);
    assert_eq!(span(&text, 50, CharClass::Lower), 50);
}

#[test]
fn character_classes() {
    for c in [' ', '\t', '\r', '\n'] {
        assert!(CharClass::Whitespace.contains(c));
    }
    assert!(!CharClass::Whitespace.contains('\u{a0}'));
    assert!(!CharClass::Whitespace.contains('x'));
    assert!(CharClass::Digit.contains('0') && CharClass::Digit.contains('9'));
    assert!(!CharClass::Digit.contains('a') && !CharClass::Digit.contains('/'));
    assert!(CharClass::Lower.contains('a') && CharClass::Lower.contains('z'));
    assert!(!CharClass::Lower.contains('A') && !CharClass::Lower.contains('{'));
    assert!(CharClass::Upper.contains('A') && CharClass::Upper.contains('Z'));
    assert!(!CharClass::Upper.contains('a') && !CharClass::Upper.contains('['));
}

#[test]
fn characters_at_positions() {
    let text = chars_of("a>=b");
    assert!(at(&text, 1, '>'));
    assert!(!at(&text, 1, '='));
    assert!(!at(&text, 4, 'b'));
    assert!(at_pair(&text, 1, '>', '='));
    assert!(!at_pair(&text, 2, '=', '='));
    assert!(!at_pair(&text, 3, 'b', 'b'));
}

#[test]
fn operation_on_a_variable() {
    let text = chars_of("x = \"a\" ,");
    assert_eq!(
        simple(&text, name("x"), 2).unwrap(),
        (Operation::Assign(name("x"), Data::Str(name("a"))), 7)
    );
    let text = chars_of("x ;");
    assert_eq!(simple(&text, name("x"), 2).unwrap(), (Operation::Print(name("x")), 2));
    let text = chars_of("x!y");
    assert_eq!(simple(&text, name("x"), 1).unwrap(), (Operation::Not(name("x")), 2));
}

#[test]
fn function_with_its_name_and_body() {
    let text = chars_of("MAIN: x=1, x ; rest");
    let ((found, function), next) = function(&text, 0).unwrap();
    assert_eq!(found, "MAIN");
    assert_eq!(
        function,
        Function {
            operations: vec![
                Operation::Assign(name("x"), Data::Number(name("1"))),
                Operation::Print(name("x")),
            ]
        }
    );
    assert_eq!(next, 14);
}

#[test]
fn class_with_its_number_and_functions() {
    let text = chars_of("42: A: x; B: ; ; 1>A");
    let ((number, class), next) = class(&text, 0).unwrap();
    assert_eq!(number, 42);
    assert_eq!(next, 16);
    assert_eq!(class.get(&name("A")).unwrap().operations, vec![Operation::Print(name("x"))]);
    assert_eq!(class.get(&name("B")).unwrap().operations, vec![]);
    assert!(class.get(&name("C")).is_none());
}

#[test]
fn class_without_functions() {
    let program = parser::program("0:;").unwrap();
    let class = program.classes.get(&0).unwrap();
    assert!(!class.contains(&name("A")));
}

#[test]
fn largest_class_number() {
    let program = parser::program("4294967295:; 4294967295>A").unwrap();
    assert!(program.classes.contains_key(&4294967295));
    assert_eq!(program.statements, vec![(4294967295, name("A"))]);
    let program = parser::program("0004294967295:;").unwrap();
    assert!(program.classes.contains_key(&4294967295));
}

#[test]
fn statement_is_a_call() {
    assert_eq!(statement(&chars_of("3 > GO 4>B"), 0).unwrap(), ((3, name("GO")), 6));
}

#[test]
fn statements_keep_their_order_among_classes() {
    let program = parser::program("2>B 1: A: ;; 1>A 2: B: ;; 2>B 1>A").unwrap();
    assert_eq!(
        program.statements,
        vec![(2, name("B")), (1, name("A")), (2, name("B")), (1, name("A"))]
    );
    assert_eq!(program.classes.len(), 2);
}

#[test]
fn classes_of_different_numbers_stand_side_by_side() {
    let program = parser::program("1: A: x;; 2: B: y;; 10: A: ;;").unwrap();
    assert_eq!(program.classes.len(), 3);
    let class = program.classes.get(&1).unwrap();
    assert_eq!(class.get(&name("A")).unwrap().operations, vec![Operation::Print(name("x"))]);
    assert!(class.get(&name("B")).is_none());
    let class = program.classes.get(&2).unwrap();
    assert_eq!(class.get(&name("B")).unwrap().operations, vec![Operation::Print(name("y"))]);
}

#[test]
fn same_name_in_two_classes_is_no_duplicate() {
    let program = parser::program("1: A: x;; 2: A: y;;").unwrap();
    assert_eq!(program.classes.len(), 2);
}
