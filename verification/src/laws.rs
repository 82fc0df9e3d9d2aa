//! What holds of every source text and of every run.

use vstd::prelude::*;
use crate::error::{ErrorKindView, ParseErrorView};
use crate::frame::{holds_values, value_of, FrameView};
use crate::grammar::{
    class, data, decimal_value, fail, function, functions, has_char, has_pair, in_class, items,
    operator_at, simple, skip_space, span_end, statement, var_name, CharClass, Operator,
};
use crate::machine::{
    assign, current, print, run_function, run_operation, step, with_frame, with_result,
    MachineView, ReplyView, RequestView, TaskView,
};
use crate::program::{ClassView, FaultView, OperationView, ProgramView};
use crate::value::DataView;

verus! {

/// An operator of two characters is never read as the operator that its
/// first character is: `>=` is not `>`, `<=` not `<`, `!=` not `!`, `==` not
/// `=`, and `//` not `/`.
pub proof fn law_longer_operator_wins(s: Seq<char>, i: int)
    ensures
        has_pair(s, i, '>', '=') ==> operator_at(s, i) == Some((Operator::GreaterEqual, 2int)),
        has_pair(s, i, '<', '=') ==> operator_at(s, i) == Some((Operator::LessEqual, 2int)),
        has_pair(s, i, '!', '=') ==> operator_at(s, i) == Some((Operator::NotEqual, 2int)),
        has_pair(s, i, '=', '=') ==> operator_at(s, i) == Some((Operator::Equal, 2int)),
        has_pair(s, i, '/', '/') ==> operator_at(s, i) == Some((Operator::Mod, 2int)),
{
}

/// No class defines a function twice. Where the functions of a class that
/// were read so far are `found`, and the next function that is read has a
/// name that one of them has, reading the functions fails for good with the
/// failure that names it, at the end of the second function, whatever the
/// operations of the two functions are.
pub proof fn law_duplicate_function(s: Seq<char>, i: int, found: ClassView)
    requires
        0 <= i <= s.len(),
        function(s, skip_space(s, i)) matches Ok(((name, _), _)) && found.contains_key(name),
    ensures
        function(s, skip_space(s, i)) matches Ok(((name, _), end)) && functions(s, i, found)
            == fail::<ClassView>(ErrorKindView::FunctionExists(name), true, end),
{
    crate::grammar::lemma_span_end_bounds(s, i, CharClass::Whitespace);
    crate::grammar::lemma_span_end_bounds(s, skip_space(s, i), CharClass::Upper);
}

/// Whether a class starts at `start` with a number that fits into 32 bits and
/// a colon; gives the position after the colon.
pub open spec fn class_opens(s: Seq<char>, start: int) -> Option<int> {
    let digits_end = span_end(s, start, CharClass::Digit);
    let colon = skip_space(s, digits_end);
    if start < digits_end && has_char(s, colon, ':') && decimal_value(
        s.subrange(start, digits_end),
    ) <= u32::MAX {
        Some(colon + 1)
    } else {
        None
    }
}

/// A class that defines a function twice is no class, and a text in which it
/// stands is no program. Where the functions of a class that were read up to
/// the position `reached` are `found`, and the function that follows has the
/// name of one of them, reading the class and reading the text both fail for
/// good with the failure that names the function, whatever the operations of
/// the functions are.
pub proof fn law_duplicate_function_ends_parse(
    s: Seq<char>,
    i: int,
    before: ProgramView,
    reached: int,
    found: ClassView,
)
    requires
        0 <= i <= s.len(),
        0 <= reached <= s.len(),
        class_opens(s, skip_space(s, i)) matches Some(body) && functions(s, body, Map::empty())
            == functions(s, reached, found),
        function(s, skip_space(s, reached)) matches Ok(((name, _), _)) && found.contains_key(name),
    ensures
        ({
            &&& function(s, skip_space(s, reached)) matches Ok(((name, _), end))
            &&& class(s, skip_space(s, i)) == fail::<(u32, ClassView)>(
                ErrorKindView::FunctionExists(name),
                true,
                end,
            )
            &&& items(s, i, before) == Err::<ProgramView, ParseErrorView>(
                ParseErrorView {
                    kind: ErrorKindView::FunctionExists(name),
                    important: true,
                    position: end,
                },
            )
        }),
{
    let start = skip_space(s, i);
    crate::grammar::lemma_span_end_bounds(s, i, CharClass::Whitespace);
    crate::grammar::lemma_span_end_bounds(s, start, CharClass::Digit);
    law_duplicate_function(s, reached, found);
}

/// A class whose first two functions have the same name is no class, and a
/// text in which it stands is no program, whatever the operations of the two
/// functions are.
pub proof fn law_same_name_twice_ends_parse(s: Seq<char>, i: int, before: ProgramView)
    requires
        0 <= i <= s.len(),
        ({
            &&& class_opens(s, skip_space(s, i)) matches Some(body)
            &&& function(s, skip_space(s, body)) matches Ok(((name, _), first_end))
            &&& function(s, skip_space(s, first_end)) matches Ok(((again, _), _))
            &&& name == again
        }),
    ensures
        ({
            &&& class_opens(s, skip_space(s, i)) matches Some(body)
            &&& function(s, skip_space(s, body)) matches Ok(((name, _), first_end))
            &&& function(s, skip_space(s, first_end)) matches Ok((_, end))
            &&& items(s, i, before) == Err::<ProgramView, ParseErrorView>(
                ParseErrorView {
                    kind: ErrorKindView::FunctionExists(name),
                    important: true,
                    position: end,
                },
            )
        }),
{
    let start = skip_space(s, i);
    let digits_end = span_end(s, start, CharClass::Digit);
    let colon = skip_space(s, digits_end);
    crate::grammar::lemma_span_end_bounds(s, i, CharClass::Whitespace);
    crate::grammar::lemma_span_end_bounds(s, start, CharClass::Digit);
    crate::grammar::lemma_span_end_bounds(s, digits_end, CharClass::Whitespace);
    crate::grammar::lemma_span_end_bounds(s, colon + 1, CharClass::Whitespace);
    let first = skip_space(s, colon + 1);
    crate::grammar::lemma_span_end_bounds(s, first, CharClass::Upper);
    crate::grammar::lemma_function_advances(s, first);
    if let Ok(((name, body), first_end)) = function(s, first) {
        let found = Map::<Seq<char>, Seq<OperationView>>::empty().insert(name, body);
        assert(functions(s, colon + 1, Map::empty()) == functions(s, first_end, found));
        law_duplicate_function_ends_parse(s, i, before, first_end, found);
    }
}

/// No program defines a class twice. Where the classes that were read so far
/// are those of `before`, and the class that is read next has the number of
/// one of them, reading the text fails for good with the failure that names
/// the number, at the end of the second class, whatever the functions of the
/// two classes are.
pub proof fn law_duplicate_class(s: Seq<char>, i: int, before: ProgramView)
    requires
        0 <= i <= s.len(),
        skip_space(s, i) < s.len(),
        class(s, skip_space(s, i)) matches Ok(((number, _), _)) && before.classes.contains_key(
            number,
        ),
    ensures
        class(s, skip_space(s, i)) matches Ok(((number, _), end)) && items(s, i, before) == Err::<
            ProgramView,
            ParseErrorView,
        >(
            ParseErrorView {
                kind: ErrorKindView::ClassExists(number),
                important: true,
                position: end,
            },
        ),
{
}

/// A text in which two classes of the same number follow each other is no
/// program, whatever the functions of the two classes are.
pub proof fn law_same_number_twice_ends_parse(s: Seq<char>, i: int, before: ProgramView)
    requires
        0 <= i <= s.len(),
        ({
            &&& class(s, skip_space(s, i)) matches Ok(((number, _), first_end))
            &&& class(s, skip_space(s, first_end)) matches Ok(((again, _), _))
            &&& number == again
        }),
    ensures
        ({
            &&& class(s, skip_space(s, i)) matches Ok(((number, _), first_end))
            &&& class(s, skip_space(s, first_end)) matches Ok((_, end))
            &&& items(s, i, before) matches Err(e)
            &&& e.kind == ErrorKindView::ClassExists(number)
            &&& e.important
            &&& before.classes.contains_key(number) ==> e.position == first_end
            &&& !before.classes.contains_key(number) ==> e.position == end
        }),
{
    let start = skip_space(s, i);
    crate::grammar::lemma_span_end_bounds(s, i, CharClass::Whitespace);
    crate::grammar::lemma_span_end_bounds(s, start, CharClass::Digit);
    crate::grammar::lemma_class_advances(s, start);
    if let Ok(((number, functions), first_end)) = class(s, start) {
        let second = skip_space(s, first_end);
        crate::grammar::lemma_span_end_bounds(s, first_end, CharClass::Whitespace);
        crate::grammar::lemma_span_end_bounds(s, second, CharClass::Digit);
        if !before.classes.contains_key(number) {
            law_duplicate_class(
                s,
                first_end,
                ProgramView {
                    classes: before.classes.insert(number, functions),
                    statements: before.statements,
                },
            );
        }
    }
}

/// Where a class fails for good, the text is no program: the failure of the
/// class is the failure of the whole text, and nothing else is tried in its
/// place.
pub proof fn law_final_failure_ends_parse(s: Seq<char>, i: int, before: ProgramView)
    requires
        0 <= i <= s.len(),
        skip_space(s, i) < s.len(),
        class(s, skip_space(s, i)) matches Err(e) && e.important,
    ensures
        class(s, skip_space(s, i)) matches Err(e) && items(s, i, before) == Err::<
            ProgramView,
            ParseErrorView,
        >(e),
{
}

/// Where a class fails, but not for good, a top-level statement is read from
/// the place at which the class started, and its failure is the failure of
/// the whole text.
pub proof fn law_statement_is_tried_after_class(s: Seq<char>, i: int, before: ProgramView)
    requires
        0 <= i <= s.len(),
        skip_space(s, i) < s.len(),
        class(s, skip_space(s, i)) matches Err(e) && !e.important,
    ensures
        match statement(s, skip_space(s, i)) {
            Ok((call, next)) => items(s, i, before) == items(
                s,
                next,
                ProgramView { classes: before.classes, statements: before.statements.push(call) },
            ),
            Err(e) => items(s, i, before) == Err::<ProgramView, ParseErrorView>(e),
        },
{
}

/// A variable name alone is an operation before `,` and `;`, and nowhere
/// else: there it prints the variable.
pub proof fn law_name_alone_prints(s: Seq<char>, name: Seq<char>, i: int)
    ensures
        has_char(s, i, ',') || has_char(s, i, ';') ==> simple(s, name, i) == Ok::<
            (OperationView, int),
            ParseErrorView,
        >((OperationView::Print(name), i)),
        simple(s, name, i) matches Ok((OperationView::Print(_), _)) ==> has_char(s, i, ',')
            || has_char(s, i, ';'),
{
}

/// Whether every character of `text` belongs to `class`.
pub open spec fn made_of(text: Seq<char>, class: CharClass) -> bool {
    forall|i: int| 0 <= i < text.len() ==> in_class(class, #[trigger] text[i])
}

/// Whether `text` is the notation of a number: digits, or digits, a point
/// and digits, with one digit at least.
pub open spec fn is_number_notation(text: Seq<char>) -> bool {
    exists|point: int|
        {
            &&& 0 <= point <= text.len()
            &&& #[trigger] made_of(text.subrange(0, point), CharClass::Digit)
            &&& point == text.len() ==> point > 0
            &&& point < text.len() ==> {
                &&& text[point] == '.'
                &&& made_of(text.subrange(point + 1, text.len() as int), CharClass::Digit)
                &&& text.len() > 1
            }
        }
}

/// Every number literal is the notation of a number, every name of a
/// variable is made of one or more small letters, and every name of a
/// function of one or more capital letters.
pub proof fn law_literals_and_names_are_well_formed(s: Seq<char>, i: int)
    requires
        0 <= i,
    ensures
        data(s, i) matches Ok((DataView::Number(notation), _)) ==> is_number_notation(notation),
        var_name(s, i) matches Ok((name, _)) ==> name.len() > 0 && made_of(name, CharClass::Lower),
        function(s, i) matches Ok(((name, _), _)) ==> name.len() > 0 && made_of(
            name,
            CharClass::Upper,
        ),
{
    crate::grammar::lemma_span_end_bounds(s, i, CharClass::Lower);
    crate::grammar::lemma_span_end_bounds(s, i, CharClass::Upper);
    crate::grammar::lemma_span_end_bounds(s, i, CharClass::Digit);
    let whole = span_end(s, i, CharClass::Digit);
    crate::grammar::lemma_span_end_bounds(s, whole + 1, CharClass::Digit);
    if let Ok((DataView::Number(notation), next)) = data(s, i) {
        let point = whole - i;
        assert(made_of(notation.subrange(0, point), CharClass::Digit)) by {
            assert forall|k: int| 0 <= k < point implies in_class(
                CharClass::Digit,
                #[trigger] notation.subrange(0, point)[k],
            ) by {
                assert(notation.subrange(0, point)[k] == s[i + k]);
            }
        }
        if point < notation.len() {
            let rest = notation.subrange(point + 1, notation.len() as int);
            assert(made_of(rest, CharClass::Digit)) by {
                assert forall|k: int| 0 <= k < rest.len() implies in_class(
                    CharClass::Digit,
                    #[trigger] rest[k],
                ) by {
                    assert(rest[k] == s[whole + 1 + k]);
                }
            }
        }
    }
    if let Ok((name, _)) = var_name(s, i) {
        assert forall|k: int| 0 <= k < name.len() implies in_class(
            CharClass::Lower,
            #[trigger] name[k],
        ) by {
            assert(name[k] == s[i + k]);
        }
    }
    if let Ok(((name, _), _)) = function(s, i) {
        assert forall|k: int| 0 <= k < name.len() implies in_class(
            CharClass::Upper,
            #[trigger] name[k],
        ) by {
            assert(name[k] == s[i + k]);
        }
    }
}

/// Whether a run has ended with a fault: nothing is put off, nothing is
/// waited for, and the machine is halted.
pub open spec fn ended(m: MachineView) -> bool {
    m.halted && m.control.len() == 0 && m.awaited is Nothing
}

/// The requests of the transitions that the machine makes from the state `m`
/// on, one for each reply in `replies`.
pub open spec fn requests(program: ProgramView, m: MachineView, replies: Seq<ReplyView>) -> Seq<
    RequestView,
>
    decreases replies.len(),
{
    if replies.len() == 0 {
        Seq::empty()
    } else {
        seq![step(program, m, replies[0]).1] + requests(
            program,
            step(program, m, replies[0]).0,
            replies.drop_first(),
        )
    }
}

/// The state of the machine after the transitions that it makes from the
/// state `m` on, one for each reply in `replies`.
pub open spec fn state_after(
    program: ProgramView,
    m: MachineView,
    replies: Seq<ReplyView>,
) -> MachineView
    decreases replies.len(),
{
    if replies.len() == 0 {
        m
    } else {
        state_after(program, step(program, m, replies[0]).0, replies.drop_first())
    }
}

/// A top-level statement that names a class which the program does not have
/// ends the run with the fault that names the class.
pub proof fn law_undefined_class_is_a_fault(program: ProgramView, m: MachineView, reply: ReplyView)
    requires
        m.awaited is Nothing,
        m.control.len() == 0,
        !m.halted,
        m.statement < program.statements.len(),
        !program.classes.contains_key(program.statements[m.statement as int].0),
    ensures
        step(program, m, reply).1 == RequestView::Fault(
            FaultView::NotAClass(program.statements[m.statement as int].0),
        ),
        ended(step(program, m, reply).0),
{
}

/// A fault ends the run, wherever it comes up: after the transition that
/// reports it nothing is left to do.
pub proof fn law_fault_ends_run(program: ProgramView, m: MachineView, reply: ReplyView)
    requires
        step(program, m, reply).1 is Fault,
    ensures
        ended(step(program, m, reply).0),
{
    if !(m.awaited is Nothing) {
    } else if m.control.len() > 0 {
        let rest = m.control.drop_last();
        match m.control.last() {
            TaskView::Sequence { operations, next } => {
                if next < operations.len() {
                    lemma_execute_fault(
                        program,
                        MachineView {
                            control: rest.push(
                                TaskView::Sequence { operations, next: next + 1 },
                            ),
                            ..m
                        },
                        operations[next as int],
                    );
                }
            },
            TaskView::Condition(operation) => {
                lemma_execute_fault(program, MachineView { control: rest, ..m }, operation);
            },
            _ => {},
        }
    }
}

/// Only a call can end in a fault, and after the fault nothing is left to
/// do.
proof fn lemma_execute_fault(program: ProgramView, m: MachineView, operation: OperationView)
    requires
        m.awaited is Nothing,
        run_operation(program, m, operation).1 is Fault,
    ensures
        operation is Call,
        ended(run_operation(program, m, operation).0),
{
}

/// After a fault has ended the run no further statement is started and
/// nothing is written: whatever the host replies, every transition leaves
/// the machine as it is and reports that the run is over.
pub proof fn law_ended_run_stays_ended(
    program: ProgramView,
    m: MachineView,
    replies: Seq<ReplyView>,
)
    requires
        ended(m),
    ensures
        state_after(program, m, replies) == m,
        requests(program, m, replies) == Seq::new(replies.len(), |i: int| RequestView::Finished),
    decreases replies.len(),
{
    if replies.len() > 0 {
        assert(step(program, m, replies[0]) == (m, RequestView::Finished));
        law_ended_run_stays_ended(program, m, replies.drop_first());
        assert(requests(program, m, replies) =~= Seq::new(
            replies.len(),
            |i: int| RequestView::Finished,
        ));
    } else {
        assert(requests(program, m, replies) =~= Seq::new(
            replies.len(),
            |i: int| RequestView::Finished,
        ));
    }
}

/// A conditional takes its first branch where the result of its condition is
/// the truth value `true`, and in no other case: after every other result,
/// be it `false`, the unset value, a number or a text, it takes the second
/// branch, and does nothing where it has none.
pub proof fn law_branch_is_chosen_by_true(program: ProgramView, m: MachineView, reply: ReplyView)
    requires
        m.awaited is Nothing,
        m.control.len() > 0,
        m.control.last() is Branch,
    ensures
        ({
            let (after, request) = step(program, m, reply);
            let rest = m.control.drop_last();
            let then_branch = m.control.last()->then_branch;
            let else_branch = m.control.last()->else_branch;
            &&& request is Continue
            &&& after.scopes == m.scopes
            &&& m.result == DataView::Bool(true) ==> after.control == rest.push(
                TaskView::Sequence { operations: then_branch, next: 0 },
            )
            &&& m.result != DataView::Bool(true) ==> after.control == match else_branch {
                Some(operations) => rest.push(TaskView::Sequence { operations, next: 0 }),
                None => rest,
            }
        }),
{
}

/// The conditional that tests the variable `x` by assigning it to itself and
/// assigns `one` to `y` in its first branch and `two` in its second, written
/// `(x=x)?{y=one}:{y=two}`.
pub open spec fn choice(x: Seq<char>, y: Seq<char>, one: DataView, two: DataView) -> OperationView {
    OperationView::Conditional {
        condition: Box::new(OperationView::Assign(x, DataView::Var(x))),
        then_branch: seq![OperationView::Assign(y, one)],
        else_branch: Some(seq![OperationView::Assign(y, two)]),
    }
}

/// A conditional on a variable assigns by the value of that variable. Where
/// `(x=x)?{y=one}:{y=two}` is the next operation of a function or a branch,
/// then four transitions later `y` holds `one` where `x` held the truth value
/// `true`, and `two` for every other value of `x`, that of a variable never
/// written too; and the host was asked nothing.
pub proof fn law_conditional_assigns_by_truth(
    program: ProgramView,
    m: MachineView,
    x: Seq<char>,
    y: Seq<char>,
    one: DataView,
    two: DataView,
    replies: Seq<ReplyView>,
)
    requires
        m.awaited is Nothing,
        m.control.len() > 0,
        m.control.last() matches TaskView::Sequence { operations, next } && next
            < operations.len() && operations[next as int] == choice(x, y, one, two),
        !(one is Var),
        !(two is Var),
        x != y,
        replies.len() == 4,
    ensures
        value_of(current(state_after(program, m, replies)), y) == if value_of(current(m), x)
            == DataView::Bool(true) {
            one
        } else {
            two
        },
        requests(program, m, replies) == Seq::new(4, |i: int| RequestView::Continue),
{
    let m1 = step(program, m, replies[0]).0;
    let m2 = step(program, m1, replies[1]).0;
    let m3 = step(program, m2, replies[2]).0;
    let m4 = step(program, m3, replies[3]).0;
    let r1 = replies.drop_first();
    let r2 = r1.drop_first();
    let r3 = r2.drop_first();
    let r4 = r3.drop_first();
    assert(r1[0] == replies[1] && r2[0] == replies[2] && r3[0] == replies[3] && r4.len() == 0);
    assert(state_after(program, m3, r3) == m4) by {
        assert(state_after(program, m4, r4) == m4);
    }
    assert(state_after(program, m2, r2) == m4);
    assert(state_after(program, m1, r1) == m4);
    assert(state_after(program, m, replies) == m4);
    assert(m1.control.last() == TaskView::Condition(OperationView::Assign(x, DataView::Var(x))));
    assert(m2.control.last() is Branch);
    assert(m2.result == value_of(current(m), x));
    assert(m3.control.last() is Sequence);
    assert(requests(program, m3, r3) =~= seq![RequestView::Continue]) by {
        assert(requests(program, m4, r4) =~= Seq::empty());
    }
    assert(requests(program, m2, r2) =~= seq![RequestView::Continue, RequestView::Continue]);
    assert(requests(program, m1, r1) =~= seq![
        RequestView::Continue,
        RequestView::Continue,
        RequestView::Continue,
    ]);
    assert(requests(program, m, replies) =~= Seq::new(4, |i: int| RequestView::Continue));
}

/// Whether neither a variable nor the result holds a reference to a
/// variable.
pub open spec fn values_only(m: MachineView) -> bool {
    &&& forall|i: int| 0 <= i < m.scopes.len() ==> holds_values(#[trigger] m.scopes[i])
    &&& !(m.result is Var)
}

/// No variable ever holds a reference to a variable: what holds none before
/// a transition holds none after it, whatever the literals of the program
/// are.
pub proof fn law_variables_hold_values(program: ProgramView, m: MachineView, reply: ReplyView)
    requires
        values_only(m),
    ensures
        values_only(step(program, m, reply).0),
{
    let after = step(program, m, reply).0;
    if !(m.awaited is Nothing) {
        lemma_values_only_with_frame(m, current(after), after.result);
    } else if m.control.len() > 0 {
        let rest = m.control.drop_last();
        match m.control.last() {
            TaskView::Sequence { operations, next } => {
                if next < operations.len() {
                    lemma_run_operation_values(
                        program,
                        MachineView {
                            control: rest.push(
                                TaskView::Sequence { operations, next: next + 1 },
                            ),
                            ..m
                        },
                        operations[next as int],
                    );
                }
            },
            TaskView::Condition(operation) => {
                lemma_run_operation_values(program, MachineView { control: rest, ..m }, operation);
            },
            _ => {},
        }
    } else {
    }
}

/// A state whose frames and result hold values still does after the frame
/// that operations read and write and the result are replaced by others that
/// hold values.
proof fn lemma_values_only_with_frame(m: MachineView, frame: FrameView, result: DataView)
    requires
        values_only(m),
        holds_values(frame),
        !(result is Var),
    ensures
        values_only(with_result(m, frame, result)),
{
    let after = with_result(m, frame, result);
    assert forall|i: int| 0 <= i < after.scopes.len() implies holds_values(
        #[trigger] after.scopes[i],
    ) by {
        if m.scopes.len() > 0 && i < m.scopes.len() - 1 {
            assert(after.scopes[i] == m.scopes[i]);
        }
    }
}

/// The execution of an operation keeps references out of the variables.
proof fn lemma_run_operation_values(program: ProgramView, m: MachineView, operation: OperationView)
    requires
        values_only(m),
    ensures
        values_only(run_operation(program, m, operation).0),
{
    let after = run_operation(program, m, operation).0;
    assert(holds_values(current(m)));
    match operation {
        OperationView::Call(class, name) => {
            lemma_values_only_with_frame(m, current(m), m.result);
            let inside = with_frame(m, current(m));
            assert forall|i: int| 0 <= i < after.scopes.len() implies holds_values(
                #[trigger] after.scopes[i],
            ) by {
                if i < inside.scopes.len() {
                    assert(after.scopes[i] == inside.scopes[i]);
                }
            }
        },
        OperationView::Conditional { .. } => {},
        _ => {
            lemma_values_only_with_frame(m, current(after), after.result);
            assert(after.scopes =~= with_result(m, current(after), after.result).scopes);
        },
    }
}

/// Operations read and write the last frame only: whatever a transition
/// does, the frames of the calls that wait for the innermost one stay as
/// they are.
pub proof fn law_outer_frames_stay(program: ProgramView, m: MachineView, reply: ReplyView, i: int)
    requires
        0 <= i < m.scopes.len() - 1,
    ensures
        i < step(program, m, reply).0.scopes.len(),
        step(program, m, reply).0.scopes[i] == m.scopes[i],
{
}

/// How many of the tasks end a function call.
pub open spec fn open_calls(tasks: Seq<TaskView>) -> nat
    decreases tasks.len(),
{
    if tasks.len() == 0 {
        0
    } else if tasks.last() is Return {
        open_calls(tasks.drop_last()) + 1
    } else {
        open_calls(tasks.drop_last())
    }
}

/// The tasks that were put off after the task at `depth`.
pub open spec fn above(control: Seq<TaskView>, depth: int) -> Seq<TaskView> {
    control.subrange(depth + 1, control.len() as int)
}

/// Whether the machine is inside a function call that was made when the
/// tasks `control` were put off and the frames were `scopes`: these tasks
/// still wait, the end of the call waits behind them, the frames still
/// stand, and over them stand the frame of the call and one frame for each
/// call inside it that has not ended.
pub open spec fn inside(m: MachineView, control: Seq<TaskView>, scopes: Seq<FrameView>) -> bool {
    &&& m.control.len() > control.len()
    &&& m.control.subrange(0, control.len() as int) == control
    &&& m.control[control.len() as int] is Return
    &&& m.scopes.len() == scopes.len() + 1 + open_calls(above(m.control, control.len() as int))
    &&& m.scopes.subrange(0, scopes.len() as int) == scopes
}

/// A task that is put off counts as an end of a call where it is one.
proof fn lemma_calls_push(tasks: Seq<TaskView>, task: TaskView)
    ensures
        open_calls(tasks.push(task)) == open_calls(tasks) + if task is Return {
            1nat
        } else {
            0nat
        },
{
    assert(tasks.push(task).drop_last() =~= tasks);
}

/// The tasks above a depth after one more is put off.
proof fn lemma_above_push(control: Seq<TaskView>, depth: int, task: TaskView)
    requires
        0 <= depth < control.len(),
    ensures
        above(control.push(task), depth) == above(control, depth).push(task),
        control.push(task).subrange(0, depth) == control.subrange(0, depth),
        control.push(task)[depth] == control[depth],
{
    assert(above(control.push(task), depth) =~= above(control, depth).push(task));
    assert(control.push(task).subrange(0, depth) =~= control.subrange(0, depth));
}

/// The tasks above a depth after the last is taken up.
proof fn lemma_above_drop(control: Seq<TaskView>, depth: int)
    requires
        0 <= depth,
        depth + 1 < control.len(),
    ensures
        above(control.drop_last(), depth) == above(control, depth).drop_last(),
        above(control, depth).len() > 0,
        above(control, depth).last() == control.last(),
        control.drop_last().subrange(0, depth) == control.subrange(0, depth),
        control.drop_last()[depth] == control[depth],
{
    assert(above(control.drop_last(), depth) =~= above(control, depth).drop_last());
    assert(control.drop_last().subrange(0, depth) =~= control.subrange(0, depth));
}

/// A state inside a call is still inside it after the frame that operations
/// read and write, the result and what is waited for are replaced.
proof fn lemma_inside_with_frame(
    m: MachineView,
    after: MachineView,
    control: Seq<TaskView>,
    scopes: Seq<FrameView>,
)
    requires
        inside(m, control, scopes),
        after.control == m.control,
        after.scopes.len() == m.scopes.len(),
        after.scopes.drop_last() == m.scopes.drop_last(),
    ensures
        inside(after, control, scopes),
{
    assert(after.scopes.subrange(0, scopes.len() as int) =~= scopes) by {
        assert forall|i: int| 0 <= i < scopes.len() implies after.scopes[i] == scopes[i] by {
            assert(after.scopes.drop_last()[i] == m.scopes.drop_last()[i]);
            assert(m.scopes.subrange(0, scopes.len() as int)[i] == m.scopes[i]);
        }
    }
}

/// The execution of an operation inside a call stays inside the call, unless
/// it ends the run with a fault.
proof fn lemma_run_operation_inside(
    program: ProgramView,
    m: MachineView,
    operation: OperationView,
    control: Seq<TaskView>,
    scopes: Seq<FrameView>,
)
    requires
        inside(m, control, scopes),
    ensures
        inside(run_operation(program, m, operation).0, control, scopes) || run_operation(
            program,
            m,
            operation,
        ).1 is Fault,
{
    let (after, request) = run_operation(program, m, operation);
    let depth = control.len() as int;
    match operation {
        OperationView::Call(class, name) => {
            let inner = with_frame(m, current(m));
            assert(inner.scopes =~= m.scopes);
            if !(request is Fault) {
                let first = inner.control.push(TaskView::Return);
                lemma_above_push(inner.control, depth, TaskView::Return);
                lemma_above_push(first, depth, after.control.last());
                lemma_calls_push(above(inner.control, depth), TaskView::Return);
                lemma_calls_push(above(first, depth), after.control.last());
                assert(after.scopes.subrange(0, scopes.len() as int) =~= scopes) by {
                    assert forall|i: int| 0 <= i < scopes.len() implies after.scopes[i]
                        == scopes[i] by {
                        assert(m.scopes.subrange(0, scopes.len() as int)[i] == m.scopes[i]);
                    }
                }
            }
        },
        OperationView::Conditional { condition, then_branch, else_branch } => {
            let branch = TaskView::Branch { then_branch, else_branch };
            let first = m.control.push(branch);
            lemma_above_push(m.control, depth, branch);
            lemma_above_push(first, depth, TaskView::Condition(*condition));
            lemma_calls_push(above(m.control, depth), branch);
            lemma_calls_push(above(first, depth), TaskView::Condition(*condition));
        },
        _ => {
            assert(after.scopes.drop_last() =~= m.scopes.drop_last());
            lemma_inside_with_frame(m, after, control, scopes);
        },
    }
}

/// A transition inside a call stays inside the call, unless it ends the run
/// with a fault or ends the call; and the end of the call puts the tasks and
/// the frames back as they were when the call was made.
proof fn lemma_step_inside(
    program: ProgramView,
    m: MachineView,
    reply: ReplyView,
    control: Seq<TaskView>,
    scopes: Seq<FrameView>,
)
    requires
        inside(m, control, scopes),
    ensures
        ({
            let (after, request) = step(program, m, reply);
            ||| inside(after, control, scopes)
            ||| request is Fault
            ||| after.control == control && after.scopes == scopes
        }),
{
    let (after, request) = step(program, m, reply);
    let depth = control.len() as int;
    if !(m.awaited is Nothing) {
        assert(after.scopes.drop_last() =~= m.scopes.drop_last());
        lemma_inside_with_frame(m, after, control, scopes);
    } else if m.control.len() == depth + 1 {
        assert(above(m.control, depth) =~= Seq::empty());
        assert(after.control =~= control);
        assert(after.scopes =~= scopes);
    } else {
        let rest = m.control.drop_last();
        lemma_above_drop(m.control, depth);
        let paused = MachineView { control: rest, ..m };
        match m.control.last() {
            TaskView::Sequence { operations, next } => {
                if next < operations.len() {
                    let task = TaskView::Sequence { operations, next: next + 1 };
                    lemma_above_push(rest, depth, task);
                    lemma_calls_push(above(rest, depth), task);
                    lemma_run_operation_inside(
                        program,
                        MachineView { control: rest.push(task), ..m },
                        operations[next as int],
                        control,
                        scopes,
                    );
                } else {
                    assert(inside(paused, control, scopes));
                }
            },
            TaskView::Condition(operation) => {
                assert(inside(paused, control, scopes));
                lemma_run_operation_inside(program, paused, operation, control, scopes);
            },
            TaskView::Branch { then_branch, else_branch } => {
                assert(inside(paused, control, scopes));
                if after.control.len() > rest.len() {
                    lemma_above_push(rest, depth, after.control.last());
                    lemma_calls_push(above(rest, depth), after.control.last());
                    assert(after.control =~= rest.push(after.control.last()));
                }
            },
            TaskView::Return => {
                assert(after.scopes.subrange(0, scopes.len() as int) =~= scopes) by {
                    assert forall|i: int| 0 <= i < scopes.len() implies after.scopes[i]
                        == scopes[i] by {
                        assert(m.scopes.subrange(0, scopes.len() as int)[i] == m.scopes[i]);
                    }
                }
            },
        }
    }
}

/// The state after the first of some transitions is the state from which the
/// others start.
proof fn lemma_state_after_first(
    program: ProgramView,
    m: MachineView,
    replies: Seq<ReplyView>,
    n: int,
)
    requires
        0 <= n < replies.len(),
    ensures
        state_after(program, m, replies.take(n + 1)) == state_after(
            program,
            step(program, m, replies[0]).0,
            replies.drop_first().take(n),
        ),
{
    assert(replies.take(n + 1).drop_first() =~= replies.drop_first().take(n));
    assert(replies.take(n + 1)[0] == replies[0]);
}

/// Whether the transitions that the machine makes from the state `m` on, one
/// for each reply in `replies`, are those of a call that ends with the last
/// of them and without a fault: before each of them more is put off than
/// `depth` tasks, after the last no more than these, and none of them
/// reports a fault.
pub open spec fn call_ends(
    program: ProgramView,
    m: MachineView,
    replies: Seq<ReplyView>,
    depth: nat,
) -> bool {
    &&& forall|n: int|
        0 <= n < replies.len() ==> (#[trigger] state_after(
            program,
            m,
            replies.take(n),
        )).control.len() > depth
    &&& forall|n: int|
        0 <= n < replies.len() ==> !(step(
            program,
            #[trigger] state_after(program, m, replies.take(n)),
            replies[n],
        ).1 is Fault)
    &&& state_after(program, m, replies).control.len() <= depth
}

/// A call that ends without a fault, seen from a state inside it.
proof fn lemma_call_ends(
    program: ProgramView,
    m: MachineView,
    replies: Seq<ReplyView>,
    control: Seq<TaskView>,
    scopes: Seq<FrameView>,
)
    requires
        inside(m, control, scopes),
        call_ends(program, m, replies, control.len()),
    ensures
        state_after(program, m, replies).control == control,
        state_after(program, m, replies).scopes == scopes,
    decreases replies.len(),
{
    if replies.len() > 0 {
        let next = step(program, m, replies[0]).0;
        let rest = replies.drop_first();
        assert(replies.take(0) =~= Seq::empty());
        assert(state_after(program, m, replies.take(0)) == m);
        lemma_step_inside(program, m, replies[0], control, scopes);
        if replies.len() > 1 {
            lemma_state_after_first(program, m, replies, 0);
            assert(rest.take(0) =~= Seq::empty());
            assert(state_after(program, m, replies.take(1)) == next);
        }
        if inside(next, control, scopes) {
            assert forall|n: int| 0 <= n < rest.len() implies (#[trigger] state_after(
                program,
                next,
                rest.take(n),
            )).control.len() > control.len() && !(step(
                program,
                state_after(program, next, rest.take(n)),
                rest[n],
            ).1 is Fault) by {
                lemma_state_after_first(program, m, replies, n);
                assert(state_after(program, m, replies.take(n + 1)).control.len()
                    > control.len());
                assert(rest[n] == replies[n + 1]);
            }
            lemma_call_ends(program, next, rest, control, scopes);
        } else {
            assert(rest.len() == 0);
            assert(state_after(program, next, rest) == next);
        }
    }
}

/// A call that ends without a fault leaves the frames as it found them.
/// Where a call is made in the state `m` and the program has the function,
/// and the transitions after that, one for each reply in `replies`, are
/// those of the call up to its end, then after them the frames are those of
/// `m` again, and so are the tasks that were put off: the call has dropped
/// its own frame and the frame of every call inside it, and has left the
/// others alone.
pub proof fn law_call_restores_frames(
    program: ProgramView,
    m: MachineView,
    class: u32,
    name: Seq<char>,
    replies: Seq<ReplyView>,
)
    requires
        run_function(program, m, class, name).1 is Continue,
        call_ends(program, run_function(program, m, class, name).0, replies, m.control.len()),
    ensures
        state_after(program, run_function(program, m, class, name).0, replies).scopes == m.scopes,
        state_after(program, run_function(program, m, class, name).0, replies).control
            == m.control,
{
    let start = run_function(program, m, class, name).0;
    let depth = m.control.len() as int;
    let first = m.control.push(TaskView::Return);
    assert(start.control.subrange(0, depth) =~= m.control);
    assert(above(start.control, depth) =~= seq![start.control.last()]);
    lemma_calls_push(Seq::empty(), start.control.last());
    assert(Seq::<TaskView>::empty().push(start.control.last()) =~= seq![start.control.last()]);
    assert(start.scopes.subrange(0, m.scopes.len() as int) =~= m.scopes);
    lemma_call_ends(program, start, replies, m.control, m.scopes);
}

/// A variable that was never mentioned prints as `None`.
pub proof fn law_unset_variable_prints_none(m: MachineView, name: Seq<char>)
    requires
        !current(m).contains_key(name),
    ensures
        print(m, name).1 == RequestView::Print("None"@),
{
}

/// Operations on variables never fail, whether the variables were written
/// before or not: of all operations only a call can report a fault.
pub proof fn law_only_calls_fail(program: ProgramView, m: MachineView, operation: OperationView)
    requires
        !(operation is Call),
    ensures
        !(run_operation(program, m, operation).1 is Fault),
        !run_operation(program, m, operation).0.halted || m.halted,
{
}

/// An assignment stores a value, never an alias. After `target` was assigned
/// the variable `source`, it holds the value that `source` held at that
/// time, and it keeps that value when another variable, `source` too, is
/// assigned anything afterwards.
pub proof fn law_assignment_takes_the_value(
    m: MachineView,
    target: Seq<char>,
    source: Seq<char>,
    other: Seq<char>,
    literal: DataView,
)
    requires
        other != target,
    ensures
        ({
            let after = assign(m, target, DataView::Var(source)).0;
            let later = assign(after, other, literal).0;
            &&& value_of(current(after), target) == value_of(current(m), source)
            &&& value_of(current(later), target) == value_of(current(m), source)
        }),
{
}

} // verus!
