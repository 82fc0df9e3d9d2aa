use happy_lang::frame::Frame;
use happy_lang::parser;
use happy_lang::program::{Class, Fault, Function, Operation, Program};
use happy_lang::table::Table;
use happy_lang::text::{chars_of, compare_text, string_of, Order};
use happy_lang::value::{Data, Relation};

fn text(value: &str) -> Data {
    Data::Str(value.to_string())
}

fn number(notation: &str) -> Data {
    Data::Number(notation.to_string())
}

fn name(value: &str) -> String {
    value.to_string()
}

#[test]
fn characters_of_a_string() {
    assert_eq!(chars_of(""), Vec::<char>::new());
    assert_eq!(chars_of("a\u{e9}\u{1F600}z"), vec!['a', '\u{e9}', '\u{1F600}', 'z']);
}

#[test]
fn string_of_characters() {
    let chars = vec!['a', '\u{e9}', '\u{1F600}', 'z'];
    assert_eq!(string_of(&chars, 0, 4), "a\u{e9}\u{1F600}z");
    assert_eq!(string_of(&chars, 1, 3), "\u{e9}\u{1F600}");
    assert_eq!(string_of(&chars, 2, 2), "");
    assert_eq!(string_of(&chars, 4, 4), "");
}

#[test]
fn texts_are_ordered_lexicographically() {
    assert_eq!(compare_text("", ""), Order::Equal);
    assert_eq!(compare_text("", "a"), Order::Less);
    assert_eq!(compare_text("a", ""), Order::Greater);
    assert_eq!(compare_text("abc", "abc"), Order::Equal);
    assert_eq!(compare_text("abc", "abd"), Order::Less);
    assert_eq!(compare_text("abd", "abc"), Order::Greater);
    assert_eq!(compare_text("ab", "abc"), Order::Less);
    assert_eq!(compare_text("b", "abc"), Order::Greater);
    assert_eq!(compare_text("Z", "a"), Order::Less);
    assert_eq!(compare_text("z", "\u{e9}"), Order::Less);
    assert_eq!(compare_text("\u{FFFF}", "\u{10000}"), Order::Less);
}

#[test]
fn text_order_is_that_of_strings() {
    let samples = ["", "a", "ab", "b", "Z", "\u{e9}", "\u{ff5e}", "\u{1F600}", "a\u{e9}", "az"];
    for left in samples {
        for right in samples {
            let expected = if left < right {
                Order::Less
            } else if left > right {
                Order::Greater
            } else {
                Order::Equal
            };
            assert_eq!(compare_text(left, right), expected);
        }
    }
}

#[test]
fn partial_order_of_values() {
    assert_eq!(Data::Bool(false).partial_order(&Data::Bool(true), None), Some(Order::Less));
    assert_eq!(Data::Bool(true).partial_order(&Data::Bool(false), None), Some(Order::Greater));
    assert_eq!(Data::Bool(true).partial_order(&Data::Bool(true), None), Some(Order::Equal));
    assert_eq!(Data::Bool(false).partial_order(&Data::Bool(false), None), Some(Order::Equal));
    assert_eq!(text("a").partial_order(&text("b"), None), Some(Order::Less));
    assert_eq!(text("b").partial_order(&text("b"), None), Some(Order::Equal));
    assert_eq!(text("c").partial_order(&text("b"), None), Some(Order::Greater));
    assert_eq!(number("1").partial_order(&number("2"), Some(Order::Less)), Some(Order::Less));
    assert_eq!(number("1").partial_order(&number("1.0"), Some(Order::Equal)), Some(Order::Equal));
    assert_eq!(number("NaN").partial_order(&number("1"), None), None);
}

#[test]
fn values_of_different_kinds_are_incomparable() {
    let values = [
        Data::Bool(true),
        text("true"),
        number("1"),
        Data::Unset,
        Data::Var(name("x")),
    ];
    for (i, left) in values.iter().enumerate() {
        for (j, right) in values.iter().enumerate() {
            if i != j {
                assert_eq!(left.partial_order(right, Some(Order::Equal)), None);
            }
        }
    }
    assert_eq!(Data::Unset.partial_order(&Data::Unset, Some(Order::Equal)), None);
    assert_eq!(Data::Var(name("x")).partial_order(&Data::Var(name("x")), None), None);
}

#[test]
fn numeric_order_is_read_for_two_numbers_only() {
    assert_eq!(text("a").partial_order(&text("b"), Some(Order::Greater)), Some(Order::Less));
    assert_eq!(
        Data::Bool(true).partial_order(&Data::Bool(true), Some(Order::Less)),
        Some(Order::Equal)
    );
}

#[test]
fn relations_hold_by_the_order() {
    let less = Some(Order::Less);
    let equal = Some(Order::Equal);
    let greater = Some(Order::Greater);
    let table = [
        (Relation::Equal, false, true, false, false),
        (Relation::NotEqual, true, false, true, true),
        (Relation::Greater, false, false, true, false),
        (Relation::Less, true, false, false, false),
        (Relation::GreaterEqual, false, true, true, false),
        (Relation::LessEqual, true, true, false, false),
    ];
    for (relation, on_less, on_equal, on_greater, on_none) in table {
        assert_eq!(relation.holds(less), on_less);
        assert_eq!(relation.holds(equal), on_equal);
        assert_eq!(relation.holds(greater), on_greater);
        assert_eq!(relation.holds(None), on_none);
    }
}

#[test]
fn printed_values() {
    assert_eq!(Data::Bool(true).printed(), "true");
    assert_eq!(Data::Bool(false).printed(), "false");
    assert_eq!(text("a b").printed(), "a b");
    assert_eq!(text("").printed(), "");
    assert_eq!(Data::Unset.printed(), "None");
    assert_eq!(Data::Var(name("x")).printed(), "Var `x`");
    assert_eq!(number("3.50").printed(), "3.50");
}

#[test]
fn default_value_is_unset() {
    assert_eq!(Data::default(), Data::Unset);
}

#[test]
fn clone_keeps_the_value() {
    for value in [Data::Bool(true), text("a"), number("1"), Data::Unset, Data::Var(name("x"))] {
        assert_eq!(value.clone(), value);
    }
}

#[test]
fn reference_names_its_variable() {
    assert_eq!(Data::Var(name("abc")).var(), Some(&name("abc")));
    assert_eq!(text("abc").var(), None);
    assert_eq!(Data::Unset.var(), None);
}

#[test]
fn both_numbers_needs_two_numbers() {
    assert!(number("1").both_numbers(&number("2")));
    assert!(!number("1").both_numbers(&text("2")));
    assert!(!text("1").both_numbers(&number("2")));
    assert!(!Data::Unset.both_numbers(&Data::Unset));
}

#[test]
fn sum_appends_texts() {
    let mut value = text("ab");
    value.add_assign(&text("cd"));
    assert_eq!(value, text("abcd"));
    value.add_assign(&number("1"));
    assert_eq!(value, text("abcd"));
    value.add_assign(&text(""));
    assert_eq!(value, text("abcd"));
    let mut value = number("1");
    value.add_assign(&text("2"));
    assert_eq!(value, number("1"));
    let mut value = Data::Unset;
    value.add_assign(&text("a"));
    assert_eq!(value, Data::Unset);
}

#[test]
fn conjunction_and_disjunction() {
    for left in [false, true] {
        for right in [false, true] {
            let mut value = Data::Bool(left);
            value.and(&Data::Bool(right));
            assert_eq!(value, Data::Bool(left && right));
            let mut value = Data::Bool(left);
            value.or(&Data::Bool(right));
            assert_eq!(value, Data::Bool(left || right));
        }
    }
    let mut value = Data::Bool(true);
    value.and(&Data::Unset);
    assert_eq!(value, Data::Bool(true));
    value.or(&text("x"));
    assert_eq!(value, Data::Bool(true));
    let mut value = text("x");
    value.and(&Data::Bool(false));
    assert_eq!(value, text("x"));
    value.or(&Data::Bool(true));
    assert_eq!(value, text("x"));
}

#[test]
fn negation() {
    let mut value = Data::Bool(true);
    value.not();
    assert_eq!(value, Data::Bool(false));
    value.not();
    assert_eq!(value, Data::Bool(true));
    let mut value = number("0");
    value.not();
    assert_eq!(value, number("0"));
    let mut value = Data::Unset;
    value.not();
    assert_eq!(value, Data::Unset);
}

#[test]
fn table_holds_the_last_value_of_a_name() {
    let mut table: Table<u32> = Table::new();
    assert_eq!(table.get(&name("a")), None);
    assert!(!table.contains(&name("a")));
    table.insert(name("a"), 1);
    table.insert(name("b"), 2);
    assert_eq!(table.get(&name("a")), Some(&1));
    assert_eq!(table.get(&name("b")), Some(&2));
    table.insert(name("a"), 3);
    assert_eq!(table.get(&name("a")), Some(&3));
    assert_eq!(table.get(&name("b")), Some(&2));
    assert_eq!(table.get(&name("")), None);
    assert!(table.contains(&name("b")));
}

#[test]
fn class_refuses_a_second_function_of_a_name() {
    let mut class = Class::new();
    assert!(class.define(name("A"), Function { operations: vec![Operation::Print(name("x"))] }));
    assert!(!class.define(name("A"), Function { operations: vec![] }));
    assert!(class.define(name("B"), Function { operations: vec![] }));
    assert_eq!(class.get(&name("A")).unwrap().operations, vec![Operation::Print(name("x"))]);
    assert!(class.contains(&name("B")));
    assert!(!class.contains(&name("C")));
}

#[test]
fn program_finds_the_function_of_a_call() {
    let program = parser::program("1: A: x;; 2: B: ;;").unwrap();
    assert_eq!(
        program.function(1, &name("A")).unwrap().operations,
        vec![Operation::Print(name("x"))]
    );
    assert_eq!(program.function(2, &name("B")).unwrap().operations, vec![]);
    assert_eq!(program.function(3, &name("A")).unwrap_err(), Fault::NotAClass(3));
    assert_eq!(program.function(1, &name("B")).unwrap_err(), Fault::NotAFunction(name("B")));
    assert_eq!(Program::new().function(0, &name("A")).unwrap_err(), Fault::NotAClass(0));
}

#[test]
fn frame_makes_a_variable_at_its_first_mention() {
    let mut frame = Frame::new();
    assert_eq!(frame.peek(&name("x")), None);
    assert_eq!(frame.read(&name("x")), Data::Unset);
    assert_eq!(frame.peek(&name("x")), Some(&Data::Unset));
    assert_eq!(frame.peek(&name("y")), None);
    frame.write(&name("y"), text("a"));
    assert_eq!(frame.read(&name("y")), text("a"));
    frame.write(&name("x"), Data::Bool(true));
    assert_eq!(frame.read(&name("x")), Data::Bool(true));
    assert_eq!(frame.read(&name("y")), text("a"));
}
