use happy_lang::machine::{Machine, Reply, Request};
use happy_lang::parser;
use happy_lang::program::Fault;
use happy_lang::text::Order;
use happy_lang::value::{Arithmetic, Data};

fn number(notation: &str) -> f64 {
    notation.parse::<f64>().unwrap()
}

fn calculate(operator: Arithmetic, left: f64, right: f64) -> f64 {
    match operator {
        Arithmetic::Add => left + right,
        Arithmetic::Sub => left - right,
        Arithmetic::Mul => left * right,
        Arithmetic::Div => left / right,
        Arithmetic::Mod => left % right,
    }
}

fn order(left: f64, right: f64) -> Option<Order> {
    if left < right {
        Some(Order::Less)
    } else if left > right {
        Some(Order::Greater)
    } else if left == right {
        Some(Order::Equal)
    } else {
        None
    }
}

/// Runs the machine to its end as a host does; gives the output and the
/// fault, if one ended the run.
fn drive(machine: &mut Machine) -> (String, Option<Fault>) {
    let mut output = String::new();
    let mut reply = Reply::Nothing;
    for _ in 0..1_000_000 {
        let request = machine.step(reply);
        reply = Reply::Nothing;
        match request {
            Request::Continue => {}
            Request::Print(text) => output.push_str(&text),
            Request::PrintNumber(notation) => output.push_str(&format!("{}", number(&notation))),
            Request::Arithmetic { operator, left, right } => {
                let value = calculate(operator, number(&left), number(&right));
                reply = Reply::Number(format!("{}", value));
            }
            Request::Compare { left, right } => {
                reply = Reply::Order(order(number(&left), number(&right)));
            }
            Request::Fault(fault) => return (output, Some(fault)),
            Request::Finished => return (output, None),
        }
    }
    panic!("the run did not end");
}

fn run(source: &str) -> (String, Option<Fault>) {
    let program = parser::program(source).unwrap();
    let mut machine = Machine::new(&program);
    drive(&mut machine)
}

#[test]
fn hello_is_printed() {
    assert_eq!(run("1: A: x=\"hello\", x, ;; 1>A"), ("hello".to_string(), None));
}

#[test]
fn unset_variable_prints_none() {
    assert_eq!(run("1: A: x;; 1>A"), ("None".to_string(), None));
}

#[test]
fn numbers_are_added_by_the_host() {
    assert_eq!(run("1: A: x=1.5, y=2, x+y, x;; 1>A"), ("3.5".to_string(), None));
}

#[test]
fn arithmetic_does_what_its_name_says() {
    assert_eq!(run("1: A: x=7, y=2, x-y, x;; 1>A").0, "5");
    assert_eq!(run("1: A: x=7, y=2, x*y, x;; 1>A").0, "14");
    assert_eq!(run("1: A: x=7, y=2, x/y, x;; 1>A").0, "3.5");
    assert_eq!(run("1: A: x=7, y=2, x//y, x;; 1>A").0, "1");
}

#[test]
fn texts_are_appended() {
    assert_eq!(run("1: A: x=\"ab\", y=\"cd\", x+y, x;; 1>A").0, "abcd");
    assert_eq!(run("1: A: x=\"ab\", y=\"cd\", x-y, x;; 1>A").0, "ab");
    assert_eq!(run("1: A: x=\"ab\", y=1, x+y, x;; 1>A").0, "ab");
}

#[test]
fn comparisons_compare_left_with_right() {
    assert_eq!(run("1: A: x=1, y=2, x<y, x;; 1>A").0, "true");
    assert_eq!(run("1: A: x=1, y=2, x>y, x;; 1>A").0, "false");
    assert_eq!(run("1: A: x=2, y=2, x>=y, x;; 1>A").0, "true");
    assert_eq!(run("1: A: x=2, y=2, x<=y, x;; 1>A").0, "true");
    assert_eq!(run("1: A: x=2, y=2, x==y, x;; 1>A").0, "true");
    assert_eq!(run("1: A: x=2, y=2, x!=y, x;; 1>A").0, "false");
    assert_eq!(run("1: A: x=\"a\", y=\"b\", x<y, x;; 1>A").0, "true");
    assert_eq!(run("1: A: x=false, y=true, x<y, x;; 1>A").0, "true");
    assert_eq!(run("1: A: x=1, y=\"b\", x==y, x;; 1>A").0, "false");
    assert_eq!(run("1: A: x=1, y=\"b\", x!=y, x;; 1>A").0, "true");
    assert_eq!(run("1: A: x=1, y=\"b\", x<=y, x;; 1>A").0, "false");
}

#[test]
fn conditional_takes_the_first_branch_on_true_only() {
    let body = "(x=x)?{y=1,}:{y=2,}, y";
    assert_eq!(run(&format!("1: A: x=true, {};; 1>A", body)).0, "1");
    assert_eq!(run(&format!("1: A: x=false, {};; 1>A", body)).0, "2");
    assert_eq!(run(&format!("1: A: {};; 1>A", body)).0, "2");
    assert_eq!(run(&format!("1: A: x=5, {};; 1>A", body)).0, "2");
    assert_eq!(run(&format!("1: A: x=\"true\", {};; 1>A", body)).0, "2");
}

#[test]
fn undefined_class_ends_the_run() {
    let (output, fault) = run("1: A: x=\"a\", x;; 1>A 2>B 1>A");
    assert_eq!(output, "a");
    assert_eq!(fault, Some(Fault::NotAClass(2)));
}

#[test]
fn undefined_function_ends_the_run_from_inside_a_call() {
    let (output, fault) = run("1: A: x=\"a\", x, 1>B, x; C: 1>A, y=\"c\", y;; 1>C 1>A");
    assert_eq!(output, "a");
    assert_eq!(fault, Some(Fault::NotAFunction("B".to_string())));
}

#[test]
fn assignment_takes_the_value_at_its_time() {
    let (output, fault) = run("1: A: a=b, b=c, c=5, d=a, d, c;; 1>A");
    assert_eq!(output, "None5");
    assert_eq!(fault, None);
}

#[test]
fn each_call_has_its_own_variables() {
    assert_eq!(run("1: A: x=1, 1>B, x; B: x, x=2, x;; 1>A").0, "None21");
}

#[test]
fn variable_can_be_inspected() {
    let program = parser::program("1: A: x=true, x!;; 1>A").unwrap();
    let mut machine = Machine::new(&program);
    assert_eq!(machine.step(Reply::Nothing), Request::Continue);
    assert_eq!(machine.variable(&"x".to_string()), Data::Unset);
    assert_eq!(machine.step(Reply::Nothing), Request::Continue);
    assert_eq!(machine.variable(&"x".to_string()), Data::Bool(true));
    assert_eq!(machine.step(Reply::Nothing), Request::Continue);
    assert_eq!(machine.variable(&"x".to_string()), Data::Bool(false));
}

#[test]
fn truth_values_are_printed_by_name() {
    assert_eq!(run("1: A: x=true, x, y=false, y;; 1>A").0, "truefalse");
}

#[test]
fn numbers_are_printed_as_the_host_formats_them() {
    assert_eq!(run("1: A: x=3.50, x;; 1>A").0, "3.5");
    assert_eq!(run("1: A: x=007, x;; 1>A").0, "7");
    assert_eq!(run("1: A: x=5., x;; 1>A").0, "5");
    assert_eq!(run("1: A: x=.5, x;; 1>A").0, "0.5");
    assert_eq!(run("1: A: x=0.1, y=0.2, x+y, x;; 1>A").0, "0.30000000000000004");
}

#[test]
fn division_by_zero_is_a_number_to_the_host() {
    assert_eq!(run("1: A: x=1, y=0, x/y, x;; 1>A").0, "inf");
    assert_eq!(run("1: A: x=0, y=0, x/y, x;; 1>A").0, "NaN");
    assert_eq!(run("1: A: x=0, y=0, x/y, x==x, x;; 1>A").0, "false");
    assert_eq!(run("1: A: x=0, y=0, x/y, x!=x, x;; 1>A").0, "true");
}

#[test]
fn unset_values_are_incomparable() {
    assert_eq!(run("1: A: x==y, x;; 1>A").0, "false");
    assert_eq!(run("1: A: x!=y, x;; 1>A").0, "true");
    assert_eq!(run("1: A: x>=y, x;; 1>A").0, "false");
}

#[test]
fn arithmetic_on_unset_variables_changes_nothing() {
    assert_eq!(run("1: A: x+y, x, y;; 1>A"), ("NoneNone".to_string(), None));
    assert_eq!(run("1: A: y=1, x-y, x;; 1>A"), ("None".to_string(), None));
    assert_eq!(run("1: A: x=1, x*y, x;; 1>A"), ("1".to_string(), None));
    assert_eq!(run("1: A: x/y, x//y, x;; 1>A"), ("None".to_string(), None));
}

#[test]
fn logic_on_truth_values_only() {
    assert_eq!(run("1: A: x=true, y=false, x&y, x;; 1>A").0, "false");
    assert_eq!(run("1: A: x=false, y=true, x|y, x;; 1>A").0, "true");
    assert_eq!(run("1: A: x=true, x!, x;; 1>A").0, "false");
    assert_eq!(run("1: A: x=true, x&y, x;; 1>A").0, "true");
    assert_eq!(run("1: A: y=true, x|y, x;; 1>A").0, "None");
    assert_eq!(run("1: A: x=1, x!, x;; 1>A").0, "1");
    assert_eq!(run("1: A: x!, x;; 1>A").0, "None");
}

#[test]
fn condition_may_be_any_operation() {
    assert_eq!(run("1: A: x=true, y=true, (x&y)?{a=1}:{a=2}, a;; 1>A").0, "1");
    assert_eq!(run("1: A: x=1, y=2, (x<y)?{a=1}:{a=2}, a;; 1>A").0, "1");
    assert_eq!(run("1: A: x=1, y=2, (x>y)?{a=1}:{a=2}, a;; 1>A").0, "2");
    assert_eq!(run("1: A: x=false, (x!)?{a=1}:{a=2}, a;; 1>A").0, "1");
    assert_eq!(run("1: A: (x=true)?{a=1}:{a=2}, a;; 1>A").0, "1");
    assert_eq!(run("1: A: (x=\"true\")?{a=1}:{a=2}, a;; 1>A").0, "2");
    assert_eq!(run("1: A: (1>B)?{a=1}:{a=2}, a; B: x=true;; 1>A").0, "2");
    assert_eq!(run("1: A: ((x=true)?{y=true})?{a=1}:{a=2}, a;; 1>A").0, "2");
}

#[test]
fn conditional_without_second_branch_does_nothing_on_false() {
    assert_eq!(run("1: A: x=false, (x=x)?{y=1}, y;; 1>A").0, "None");
    assert_eq!(run("1: A: x=true, (x=x)?{y=1}, y;; 1>A").0, "1");
}

#[test]
fn statements_run_in_their_order() {
    assert_eq!(run("1: A: x=\"a\", x; B: x=\"b\", x;; 1>B 1>A 1>B").0, "bab");
}

#[test]
fn program_without_statements_prints_nothing() {
    assert_eq!(run("1: A: x=1, x;;"), (String::new(), None));
    assert_eq!(run(""), (String::new(), None));
}

#[test]
fn undefined_class_ends_the_run_from_inside_a_branch() {
    let (output, fault) = run("1: A: x=\"a\", x, (x=x)?{}:{9>Z, x,}, x;; 1>A 1>A");
    assert_eq!(output, "a");
    assert_eq!(fault, Some(Fault::NotAClass(9)));
}

#[test]
fn undefined_function_in_the_first_statement_prints_nothing() {
    let (output, fault) = run("1>B 1: A: x=1, x;; 1>A");
    assert_eq!(output, "");
    assert_eq!(fault, Some(Fault::NotAFunction("B".to_string())));
}

#[test]
fn machine_is_finished_for_good_after_a_fault() {
    let program = parser::program("1: A: x=1, x;; 2>A 1>A").unwrap();
    let mut machine = Machine::new(&program);
    assert_eq!(machine.step(Reply::Nothing), Request::Fault(Fault::NotAClass(2)));
    for _ in 0..5 {
        assert_eq!(machine.step(Reply::Nothing), Request::Finished);
        assert_eq!(machine.step(Reply::Number("1".to_string())), Request::Finished);
        assert_eq!(machine.run(Reply::Order(None), 10), Request::Finished);
    }
}

#[test]
fn machine_stays_finished_at_the_end() {
    let program = parser::program("1: A: ;; 1>A").unwrap();
    let mut machine = Machine::new(&program);
    assert_eq!(machine.run(Reply::Nothing, 100), Request::Finished);
    assert_eq!(machine.step(Reply::Nothing), Request::Finished);
}

#[test]
fn machine_asks_again_after_a_reply_that_is_none() {
    let program = parser::program("1: A: x=1, y=2, x+y, x<y, x;; 1>A").unwrap();
    let mut machine = Machine::new(&program);
    let sum = Request::Arithmetic {
        operator: Arithmetic::Add,
        left: "1".to_string(),
        right: "2".to_string(),
    };
    assert_eq!(machine.run(Reply::Nothing, 100), sum);
    assert_eq!(machine.step(Reply::Nothing), sum);
    assert_eq!(machine.step(Reply::Order(Some(Order::Less))), sum);
    assert_eq!(machine.run(Reply::Nothing, 100), sum);
    assert_eq!(machine.variable(&"x".to_string()), Data::Number("1".to_string()));
    let order = Request::Compare { left: "3".to_string(), right: "2".to_string() };
    assert_eq!(machine.run(Reply::Number("3".to_string()), 100), order);
    assert_eq!(machine.variable(&"x".to_string()), Data::Number("3".to_string()));
    assert_eq!(machine.step(Reply::Number("3".to_string())), order);
    assert_eq!(machine.step(Reply::Nothing), order);
    assert_eq!(
        machine.run(Reply::Order(Some(Order::Greater)), 100),
        Request::Print("false".to_string())
    );
    assert_eq!(machine.run(Reply::Nothing, 100), Request::Finished);
}

#[test]
fn run_stops_when_its_budget_is_spent() {
    let program = parser::program("1: A: x=1, x=2, x=3, x;; 1>A").unwrap();
    let mut machine = Machine::new(&program);
    assert_eq!(machine.run(Reply::Nothing, 3), Request::Continue);
    assert_eq!(machine.variable(&"x".to_string()), Data::Number("2".to_string()));
    assert_eq!(machine.run(Reply::Nothing, 0), Request::Continue);
    assert_eq!(machine.variable(&"x".to_string()), Data::Number("3".to_string()));
    assert_eq!(machine.run(Reply::Nothing, 1), Request::PrintNumber("3".to_string()));
    assert_eq!(machine.run(Reply::Nothing, usize::MAX), Request::Finished);
}

#[test]
fn endless_recursion_is_the_hosts_to_end() {
    let program = parser::program("1: A: x=\"a\", x, 1>A;; 1>A").unwrap();
    let mut machine = Machine::new(&program);
    let mut printed = 0;
    for _ in 0..10_000 {
        match machine.step(Reply::Nothing) {
            Request::Print(text) => {
                assert_eq!(text, "a");
                printed += 1;
            }
            Request::Continue => {}
            other => panic!("unexpected request {:?}", other),
        }
    }
    assert_eq!(printed, 3333);
}

#[test]
fn variable_outside_any_call_is_unset() {
    let program = parser::program("1: A: x=1;; 1>A").unwrap();
    let mut machine = Machine::new(&program);
    assert_eq!(machine.variable(&"x".to_string()), Data::Unset);
    assert_eq!(machine.run(Reply::Nothing, 100), Request::Finished);
    assert_eq!(machine.variable(&"x".to_string()), Data::Unset);
}

#[test]
fn calls_leave_the_variables_of_their_callers() {
    let source = "1: A: x=1, 1>B, x, y; B: y=2, x=7, 1>C, y, z; C: z=3, y=8, z;; 1>A 1>C";
    assert_eq!(run(source), ("32None1None3".to_string(), None));
}

#[test]
fn variables_of_a_call_are_gone_after_it() {
    let program = parser::program("1: A: x=1;; 1>A 1>A").unwrap();
    let mut machine = Machine::new(&program);
    assert_eq!(machine.run(Reply::Nothing, 2), Request::Continue);
    assert_eq!(machine.variable(&"x".to_string()), Data::Number("1".to_string()));
    assert_eq!(machine.run(Reply::Nothing, 2), Request::Continue);
    assert_eq!(machine.variable(&"x".to_string()), Data::Unset);
    assert_eq!(machine.run(Reply::Nothing, 1), Request::Continue);
    assert_eq!(machine.variable(&"x".to_string()), Data::Unset);
    assert_eq!(machine.run(Reply::Nothing, 100), Request::Finished);
}
