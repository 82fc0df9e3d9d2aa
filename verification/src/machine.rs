//! The interpreter: a machine that executes a program one transition at a
//! time.
//!
//! The machine decides; its host does what the library cannot. Each call of
//! [`Machine::step`] makes one transition and hands back a [`Request`]: text
//! to write, a question about two numbers, the fault that ended the run, or
//! nothing but the wish to go on. The host answers a question with the
//! [`Reply`] of the next call. Calls of functions are kept on a stack of the
//! machine's own, so that a deep recursion of the program is none of the
//! host.

use vstd::prelude::*;
use crate::frame::{mentioned, value_of, Frame, FrameView};
use crate::program::{
    callee, lemma_conditional_model, models, Fault, FaultView, Operation, OperationView, Program,
    ProgramView,
};
use crate::text::Order;
use crate::value::{
    and_of, not_of, or_of, partial_order, printed, relation_holds, sum_of, Arithmetic, Data,
    DataView, Relation,
};

verus! {

/// What the machine asks of its host after a transition.
#[derive(Debug, PartialEq)]
pub enum Request {
    /// Nothing: the run goes on with the next transition.
    Continue,
    /// To write this text to the output.
    Print(String),
    /// To write the number with this notation to the output.
    PrintNumber(String),
    /// To reply with the number that `operator` makes of the numbers `left`
    /// and `right`.
    Arithmetic { operator: Arithmetic, left: String, right: String },
    /// To reply with the order of the numbers `left` and `right`.
    Compare { left: String, right: String },
    /// To report this fault, which has ended the run.
    Fault(Fault),
    /// Nothing: the run is over.
    Finished,
}

/// The mathematical content of a [`Request`].
pub ghost enum RequestView {
    Continue,
    Print(Seq<char>),
    PrintNumber(Seq<char>),
    Arithmetic { operator: Arithmetic, left: Seq<char>, right: Seq<char> },
    Compare { left: Seq<char>, right: Seq<char> },
    Fault(FaultView),
    Finished,
}

impl View for Request {
    type V = RequestView;

    open spec fn view(&self) -> RequestView {
        match self {
            Request::Continue => RequestView::Continue,
            Request::Print(text) => RequestView::Print(text@),
            Request::PrintNumber(number) => RequestView::PrintNumber(number@),
            Request::Arithmetic { operator, left, right } => RequestView::Arithmetic {
                operator: *operator,
                left: left@,
                right: right@,
            },
            Request::Compare { left, right } => RequestView::Compare { left: left@, right: right@ },
            Request::Fault(fault) => RequestView::Fault(fault@),
            Request::Finished => RequestView::Finished,
        }
    }
}

/// What the host hands to the machine with a call of [`Machine::step`].
#[derive(Debug, PartialEq)]
pub enum Reply {
    /// Nothing: no question was asked.
    Nothing,
    /// The number that was asked for, as its notation.
    Number(String),
    /// The order that was asked for: how the left number stands to the
    /// right one, `None` where the two have no order.
    Order(Option<Order>),
}

/// The mathematical content of a [`Reply`].
pub ghost enum ReplyView {
    Nothing,
    Number(Seq<char>),
    Order(Option<Order>),
}

impl View for Reply {
    type V = ReplyView;

    open spec fn view(&self) -> ReplyView {
        match self {
            Reply::Nothing => ReplyView::Nothing,
            Reply::Number(number) => ReplyView::Number(number@),
            Reply::Order(order) => ReplyView::Order(*order),
        }
    }
}

/// Work that the machine has put off.
pub ghost enum TaskView {
    /// To execute `operations[next..]` in order: the rest of a function body
    /// or of a branch.
    Sequence { operations: Seq<OperationView>, next: nat },
    /// To execute the condition of a conditional.
    Condition(OperationView),
    /// To choose a branch of a conditional by the result of its condition.
    Branch { then_branch: Seq<OperationView>, else_branch: Option<Seq<OperationView>> },
    /// To end a function call: to drop its frame.
    Return,
}

/// What the machine waits for.
pub ghost enum AwaitedView {
    /// Nothing.
    Nothing,
    /// The number that `operator` makes of the numbers `left` and `right`,
    /// to store it in the variable `target`.
    Number { target: Seq<char>, operator: Arithmetic, left: Seq<char>, right: Seq<char> },
    /// The order of the numbers `left` and `right`, to store whether
    /// `relation` holds of it in the variable `target`.
    Order { target: Seq<char>, relation: Relation, left: Seq<char>, right: Seq<char> },
}

/// The state of a machine.
pub ghost struct MachineView {
    /// The frames of the function calls that have not ended, the innermost
    /// last. Operations read and write the last frame only.
    pub scopes: Seq<FrameView>,
    /// The work that was put off, what is to be done first being last.
    pub control: Seq<TaskView>,
    /// The result of the operation that was executed last.
    pub result: DataView,
    /// What the machine waits for.
    pub awaited: AwaitedView,
    /// How many top-level statements were started.
    pub statement: nat,
    /// Whether a fault has ended the run.
    pub halted: bool,
}

/// The state in which every run starts.
pub open spec fn initial() -> MachineView {
    MachineView {
        scopes: Seq::empty(),
        control: Seq::empty(),
        result: DataView::Unset,
        awaited: AwaitedView::Nothing,
        statement: 0,
        halted: false,
    }
}

/// The frame that operations read and write: the last one, and an empty one
/// where there is none.
pub open spec fn current(m: MachineView) -> FrameView {
    if m.scopes.len() > 0 {
        m.scopes.last()
    } else {
        Map::empty()
    }
}

/// The state `m` with `frame` in place of the frame that operations read and
/// write.
pub open spec fn with_frame(m: MachineView, frame: FrameView) -> MachineView {
    MachineView {
        scopes: if m.scopes.len() > 0 {
            m.scopes.drop_last().push(frame)
        } else {
            seq![frame]
        },
        ..m
    }
}

/// The state `m` after an operation that left `frame` and resulted in
/// `result`.
pub open spec fn with_result(m: MachineView, frame: FrameView, result: DataView) -> MachineView {
    MachineView { result, ..with_frame(m, frame) }
}

/// The state `m` after a fault: nothing is left to do. The frames stay as
/// they are.
pub open spec fn halt(m: MachineView) -> MachineView {
    MachineView { control: Seq::empty(), awaited: AwaitedView::Nothing, halted: true, ..m }
}

/// A call of the function `name` of the class numbered `class`. Where the
/// program has that function, the call gets a new, empty frame; its
/// operations are put off, and behind them the end of the call. Where it has
/// not, the run ends with the fault.
pub open spec fn run_function(
    program: ProgramView,
    m: MachineView,
    class: u32,
    name: Seq<char>,
) -> (MachineView, RequestView) {
    match callee(program, class, name) {
        Err(fault) => (halt(m), RequestView::Fault(fault)),
        Ok(operations) => (
            MachineView {
                scopes: m.scopes.push(Map::empty()),
                control: m.control.push(TaskView::Return).push(
                    TaskView::Sequence { operations, next: 0 },
                ),
                ..m
            },
            RequestView::Continue,
        ),
    }
}

/// An arithmetic operation on the variables `l` and `r`. Of two numbers the
/// host is asked what the operator makes; the machine waits for the reply.
/// Of every other pair of values `Add` stores the sum in `l`, and the other
/// operators leave `l` as it is. The result is the value of `l`.
pub open spec fn arithmetic(m: MachineView, operator: Arithmetic, l: Seq<char>, r: Seq<char>) -> (
    MachineView,
    RequestView,
) {
    let left = value_of(current(m), l);
    let right = value_of(current(m), r);
    let after = mentioned(mentioned(current(m), l), r);
    match (left, right) {
        (DataView::Number(a), DataView::Number(b)) => (
            MachineView {
                awaited: AwaitedView::Number { target: l, operator, left: a, right: b },
                ..with_frame(m, after)
            },
            RequestView::Arithmetic { operator, left: a, right: b },
        ),
        _ => {
            let value = if operator == Arithmetic::Add {
                sum_of(left, right)
            } else {
                left
            };
            (with_result(m, after.insert(l, value), value), RequestView::Continue)
        },
    }
}

/// A comparison of the variables `l` and `r`. Of two numbers the host is
/// asked for the order; the machine waits for the reply. Of every other pair
/// of values the truth value of the comparison is stored in `l`, and is the
/// result.
pub open spec fn compare(m: MachineView, relation: Relation, l: Seq<char>, r: Seq<char>) -> (
    MachineView,
    RequestView,
) {
    let left = value_of(current(m), l);
    let right = value_of(current(m), r);
    let after = mentioned(mentioned(current(m), l), r);
    let verdict = DataView::Bool(relation_holds(relation, partial_order(left, right, None)));
    match (left, right) {
        (DataView::Number(a), DataView::Number(b)) => (
            MachineView {
                awaited: AwaitedView::Order { target: l, relation, left: a, right: b },
                ..with_frame(m, after)
            },
            RequestView::Compare { left: a, right: b },
        ),
        _ => (with_result(m, after.insert(l, verdict), verdict), RequestView::Continue),
    }
}

/// An assignment of `literal` to the variable `l`. A literal that refers to
/// a variable stands for the value that this variable holds at the time of
/// the assignment. The result is the value that was stored.
pub open spec fn assign(m: MachineView, l: Seq<char>, literal: DataView) -> (
    MachineView,
    RequestView,
) {
    match literal {
        DataView::Var(name) => {
            let value = value_of(current(m), name);
            (
                with_result(m, mentioned(current(m), name).insert(l, value), value),
                RequestView::Continue,
            )
        },
        _ => (with_result(m, current(m).insert(l, literal), literal), RequestView::Continue),
    }
}

/// The printing of the variable `l`: the host is asked to write its value.
/// The result is the unset value.
pub open spec fn print(m: MachineView, l: Seq<char>) -> (MachineView, RequestView) {
    let value = value_of(current(m), l);
    (
        with_result(m, mentioned(current(m), l), DataView::Unset),
        match value {
            DataView::Number(number) => RequestView::PrintNumber(number),
            _ => RequestView::Print(printed(value)),
        },
    )
}

/// The execution of one operation in the state `m`.
pub open spec fn run_operation(program: ProgramView, m: MachineView, operation: OperationView) -> (
    MachineView,
    RequestView,
) {
    match operation {
        OperationView::Arithmetic(operator, l, r) => arithmetic(m, operator, l, r),
        OperationView::Compare(relation, l, r) => compare(m, relation, l, r),
        OperationView::Assign(l, literal) => assign(m, l, literal),
        OperationView::And(l, r) => {
            let value = and_of(value_of(current(m), l), value_of(current(m), r));
            (
                with_result(m, mentioned(mentioned(current(m), l), r).insert(l, value), value),
                RequestView::Continue,
            )
        },
        OperationView::Or(l, r) => {
            let value = or_of(value_of(current(m), l), value_of(current(m), r));
            (
                with_result(m, mentioned(mentioned(current(m), l), r).insert(l, value), value),
                RequestView::Continue,
            )
        },
        OperationView::Not(l) => {
            let value = not_of(value_of(current(m), l));
            (with_result(m, current(m).insert(l, value), value), RequestView::Continue)
        },
        OperationView::Print(l) => print(m, l),
        OperationView::Call(class, name) => run_function(
            program,
            with_frame(m, current(m)),
            class,
            name,
        ),
        OperationView::Conditional { condition, then_branch, else_branch } => (
            MachineView {
                control: m.control.push(TaskView::Branch { then_branch, else_branch }).push(
                    TaskView::Condition(*condition),
                ),
                ..m
            },
            RequestView::Continue,
        ),
    }
}

/// The transition of a machine that waits for a reply. The reply that was
/// asked for is stored in the variable that waits for it, and is the result.
/// After any other reply the machine asks again.
pub open spec fn answer(m: MachineView, reply: ReplyView) -> (MachineView, RequestView) {
    match m.awaited {
        AwaitedView::Nothing => (m, RequestView::Continue),
        AwaitedView::Number { target, operator, left, right } => match reply {
            ReplyView::Number(number) => (
                MachineView {
                    awaited: AwaitedView::Nothing,
                    ..with_result(
                        m,
                        current(m).insert(target, DataView::Number(number)),
                        DataView::Number(number),
                    )
                },
                RequestView::Continue,
            ),
            _ => (m, RequestView::Arithmetic { operator, left, right }),
        },
        AwaitedView::Order { target, relation, left, right } => match reply {
            ReplyView::Order(order) => {
                let verdict = DataView::Bool(relation_holds(relation, order));
                (
                    MachineView {
                        awaited: AwaitedView::Nothing,
                        ..with_result(m, current(m).insert(target, verdict), verdict)
                    },
                    RequestView::Continue,
                )
            },
            _ => (m, RequestView::Compare { left, right }),
        },
    }
}

/// The transition of a machine that has put off work: it takes up what it
/// put off last.
///
/// Of a sequence the next operation is executed; a sequence that is through
/// results in the unset value. A branch is chosen by the result of the
/// condition: the one branch where it is the truth value `true`, the other,
/// if there is one, in every other case.
pub open spec fn resume(program: ProgramView, m: MachineView) -> (MachineView, RequestView) {
    let rest = m.control.drop_last();
    match m.control.last() {
        TaskView::Sequence { operations, next } => if next < operations.len() {
            run_operation(
                program,
                MachineView {
                    control: rest.push(TaskView::Sequence { operations, next: next + 1 }),
                    ..m
                },
                operations[next as int],
            )
        } else {
            (MachineView { control: rest, result: DataView::Unset, ..m }, RequestView::Continue)
        },
        TaskView::Condition(operation) => run_operation(
            program,
            MachineView { control: rest, ..m },
            operation,
        ),
        TaskView::Branch { then_branch, else_branch } => (
            if m.result == DataView::Bool(true) {
                MachineView {
                    control: rest.push(TaskView::Sequence { operations: then_branch, next: 0 }),
                    ..m
                }
            } else {
                match else_branch {
                    Some(operations) => MachineView {
                        control: rest.push(TaskView::Sequence { operations, next: 0 }),
                        ..m
                    },
                    None => MachineView { control: rest, result: DataView::Unset, ..m },
                }
            },
            RequestView::Continue,
        ),
        TaskView::Return => (
            MachineView {
                control: rest,
                scopes: if m.scopes.len() > 0 {
                    m.scopes.drop_last()
                } else {
                    m.scopes
                },
                result: DataView::Unset,
                ..m
            },
            RequestView::Continue,
        ),
    }
}

/// The transition of a machine that has nothing put off: it starts the next
/// top-level statement, and is finished where there is none or a fault has
/// ended the run.
pub open spec fn proceed(program: ProgramView, m: MachineView) -> (MachineView, RequestView) {
    if m.halted || m.statement >= program.statements.len() {
        (m, RequestView::Finished)
    } else {
        let (class, name) = program.statements[m.statement as int];
        run_function(program, MachineView { statement: m.statement + 1, ..m }, class, name)
    }
}

/// The transitions of the machine up to the first that asks something of
/// the host, `budget` at most and one at least: the state after the last of
/// them and what it asks. `reply` goes to the first.
pub open spec fn run(program: ProgramView, m: MachineView, reply: ReplyView, budget: nat) -> (
    MachineView,
    RequestView,
)
    decreases budget,
{
    let (after, request) = step(program, m, reply);
    if request is Continue && budget > 1 {
        run(program, after, ReplyView::Nothing, (budget - 1) as nat)
    } else {
        (after, request)
    }
}

/// One transition of the machine: the state after it and what the host is
/// asked.
pub open spec fn step(program: ProgramView, m: MachineView, reply: ReplyView) -> (
    MachineView,
    RequestView,
) {
    if !(m.awaited is Nothing) {
        answer(m, reply)
    } else if m.control.len() > 0 {
        resume(program, m)
    } else {
        proceed(program, m)
    }
}

/// Work that the machine has put off; see [`TaskView`].
#[derive(Debug)]
enum Task<'p> {
    Sequence { operations: &'p Vec<Operation>, next: usize },
    Condition(&'p Operation),
    Branch { then_branch: &'p Vec<Operation>, else_branch: &'p Option<Vec<Operation>> },
    Return,
}

impl<'p> View for Task<'p> {
    type V = TaskView;

    closed spec fn view(&self) -> TaskView {
        match self {
            Task::Sequence { operations, next } => TaskView::Sequence {
                operations: models(operations@),
                next: *next as nat,
            },
            Task::Condition(operation) => TaskView::Condition(operation@),
            Task::Branch { then_branch, else_branch } => TaskView::Branch {
                then_branch: models(then_branch@),
                else_branch: match else_branch {
                    Some(operations) => Some(models(operations@)),
                    None => None,
                },
            },
            Task::Return => TaskView::Return,
        }
    }
}

/// What the machine waits for; see [`AwaitedView`].
#[derive(Debug)]
enum Awaited<'p> {
    Number { target: &'p String, operator: Arithmetic, left: String, right: String },
    Order { target: &'p String, relation: Relation, left: String, right: String },
}

impl<'p> View for Awaited<'p> {
    type V = AwaitedView;

    closed spec fn view(&self) -> AwaitedView {
        match self {
            Awaited::Number { target, operator, left, right } => AwaitedView::Number {
                target: target@,
                operator: *operator,
                left: left@,
                right: right@,
            },
            Awaited::Order { target, relation, left, right } => AwaitedView::Order {
                target: target@,
                relation: *relation,
                left: left@,
                right: right@,
            },
        }
    }
}

/// The mathematical content of a stack of frames.
spec fn frames(scopes: Seq<Frame>) -> Seq<FrameView> {
    Seq::new(scopes.len(), |i: int| scopes[i]@)
}

/// Whether every frame of a stack is well formed.
spec fn frames_wf(scopes: Seq<Frame>) -> bool {
    forall|i: int| 0 <= i < scopes.len() ==> (#[trigger] scopes[i]).wf()
}

/// The mathematical content of a stack of tasks.
spec fn tasks(control: Seq<Task>) -> Seq<TaskView> {
    Seq::new(control.len(), |i: int| control[i]@)
}

/// Takes the frame that operations read and write from the stack: the last
/// one, and a new one where there is none.
fn open_frame(scopes: &mut Vec<Frame>) -> (frame: Frame)
    requires
        frames_wf(old(scopes)@),
    ensures
        frame.wf(),
        frames_wf(final(scopes)@),
        old(scopes)@.len() > 0 ==> frame@ == frames(old(scopes)@).last() && frames(final(scopes)@)
            == frames(old(scopes)@).drop_last(),
        old(scopes)@.len() == 0 ==> frame@ == FrameView::empty() && final(scopes)@.len() == 0,
{
    match scopes.pop() {
        Some(frame) => {
            assert(frames(scopes@) =~= frames(old(scopes)@).drop_last());
            frame
        },
        None => Frame::new(),
    }
}

/// Puts the frame that operations read and write back on the stack.
fn close_frame(scopes: &mut Vec<Frame>, frame: Frame)
    requires
        frames_wf(old(scopes)@),
        frame.wf(),
    ensures
        frames_wf(final(scopes)@),
        frames(final(scopes)@) == frames(old(scopes)@).push(frame@),
{
    scopes.push(frame);
    assert(frames(scopes@) =~= frames(old(scopes)@).push(frame@));
}

/// A machine that executes a program.
#[derive(Debug)]
pub struct Machine<'p> {
    program: &'p Program,
    scopes: Vec<Frame>,
    control: Vec<Task<'p>>,
    result: Data,
    awaited: Option<Awaited<'p>>,
    statement: usize,
    halted: bool,
}

impl<'p> View for Machine<'p> {
    type V = MachineView;

    closed spec fn view(&self) -> MachineView {
        MachineView {
            scopes: frames(self.scopes@),
            control: tasks(self.control@),
            result: self.result@,
            awaited: match self.awaited {
                Some(awaited) => awaited@,
                None => AwaitedView::Nothing,
            },
            statement: self.statement as nat,
            halted: self.halted,
        }
    }
}

impl<'p> Machine<'p> {
    /// The program that the machine executes.
    pub closed spec fn program(&self) -> ProgramView {
        self.program@
    }

    /// Whether the machine is well formed: its program is, and neither a
    /// variable nor the result holds a reference to a variable.
    pub closed spec fn wf(&self) -> bool {
        &&& self.program.wf()
        &&& frames_wf(self.scopes@)
        &&& !(self.result@ is Var)
    }

    /// A machine at the start of a run of `program`.
    pub fn new(program: &'p Program) -> (r: Machine<'p>)
        requires
            program.wf(),
        ensures
            r.wf(),
            r.program() == program@,
            r@ == initial(),
    {
        let r = Machine {
            program,
            scopes: Vec::new(),
            control: Vec::new(),
            result: Data::Unset,
            awaited: None,
            statement: 0,
            halted: false,
        };
        assert(r@.scopes =~= Seq::empty());
        assert(r@.control =~= Seq::empty());
        r
    }

    /// The value of the variable `name` in the frame that operations read
    /// and write. This is no mention of the variable.
    pub fn variable(&self, name: &String) -> (r: Data)
        requires
            self.wf(),
        ensures
            r@ == value_of(current(self@), name@),
    {
        if self.scopes.len() == 0 {
            return Data::Unset;
        }
        match self.scopes[self.scopes.len() - 1].peek(name) {
            Some(value) => value.clone(),
            None => Data::Unset,
        }
    }

    fn run_arithmetic(&mut self, operator: Arithmetic, l: &'p String, r: &'p String) -> (request:
        Request)
        requires
            old(self).wf(),
        ensures
            final(self).wf(),
            final(self).program == old(self).program,
            (final(self)@, request@) == arithmetic(old(self)@, operator, l@, r@),
    {
        let mut frame = open_frame(&mut self.scopes);
        let mut left = frame.read(l);
        let right = frame.read(r);
        let ghost expected = arithmetic(old(self)@, operator, l@, r@).0;
        if left.both_numbers(&right) {
            match (left, right) {
                (Data::Number(a), Data::Number(b)) => {
                    close_frame(&mut self.scopes, frame);
                    let request = Request::Arithmetic {
                        operator,
                        left: a.clone(),
                        right: b.clone(),
                    };
                    self.awaited = Some(Awaited::Number { target: l, operator, left: a, right: b });
                    assert(self@.scopes =~= expected.scopes);
                    request
                },
                _ => Request::Continue,
            }
        } else {
            if matches!(operator, Arithmetic::Add) {
                left.add_assign(&right);
            }
            frame.write(l, left.clone());
            self.result = left;
            close_frame(&mut self.scopes, frame);
            assert(self@.scopes =~= expected.scopes);
            Request::Continue
        }
    }

    fn run_compare(&mut self, relation: Relation, l: &'p String, r: &'p String) -> (request:
        Request)
        requires
            old(self).wf(),
        ensures
            final(self).wf(),
            final(self).program == old(self).program,
            (final(self)@, request@) == compare(old(self)@, relation, l@, r@),
    {
        let mut frame = open_frame(&mut self.scopes);
        let left = frame.read(l);
        let right = frame.read(r);
        let ghost expected = compare(old(self)@, relation, l@, r@).0;
        if left.both_numbers(&right) {
            match (left, right) {
                (Data::Number(a), Data::Number(b)) => {
                    close_frame(&mut self.scopes, frame);
                    let request = Request::Compare { left: a.clone(), right: b.clone() };
                    self.awaited = Some(Awaited::Order { target: l, relation, left: a, right: b });
                    assert(self@.scopes =~= expected.scopes);
                    request
                },
                _ => Request::Continue,
            }
        } else {
            let verdict = relation.holds(left.partial_order(&right, None));
            frame.write(l, Data::Bool(verdict));
            self.result = Data::Bool(verdict);
            close_frame(&mut self.scopes, frame);
            assert(self@.scopes =~= expected.scopes);
            Request::Continue
        }
    }

    fn run_assign(&mut self, l: &'p String, literal: &'p Data) -> (request: Request)
        requires
            old(self).wf(),
        ensures
            final(self).wf(),
            final(self).program == old(self).program,
            (final(self)@, request@) == assign(old(self)@, l@, literal@),
    {
        let mut frame = open_frame(&mut self.scopes);
        let ghost expected = assign(old(self)@, l@, literal@).0;
        let value = match literal.var() {
            Some(name) => frame.read(name),
            None => literal.clone(),
        };
        frame.write(l, value.clone());
        self.result = value;
        close_frame(&mut self.scopes, frame);
        assert(self@.scopes =~= expected.scopes);
        Request::Continue
    }

    fn run_print(&mut self, l: &'p String) -> (request: Request)
        requires
            old(self).wf(),
        ensures
            final(self).wf(),
            final(self).program == old(self).program,
            (final(self)@, request@) == print(old(self)@, l@),
    {
        let mut frame = open_frame(&mut self.scopes);
        let ghost expected = print(old(self)@, l@).0;
        let value = frame.read(l);
        self.result = Data::Unset;
        close_frame(&mut self.scopes, frame);
        assert(self@.scopes =~= expected.scopes);
        match value {
            Data::Number(number) => Request::PrintNumber(number),
            other => Request::Print(other.printed()),
        }
    }

    /// Stores what `and`, `or` and `not` make of the variable `l`.
    fn run_logic(&mut self, operation: &'p Operation) -> (request: Request)
        requires
            old(self).wf(),
            operation is And || operation is Or || operation is Not,
        ensures
            final(self).wf(),
            final(self).program == old(self).program,
            (final(self)@, request@) == run_operation(old(self).program(), old(self)@, operation@),
    {
        let mut frame = open_frame(&mut self.scopes);
        let ghost expected = run_operation(old(self).program(), old(self)@, operation@).0;
        match operation {
            Operation::And(l, r) => {
                let mut value = frame.read(l);
                let other = frame.read(r);
                value.and(&other);
                frame.write(l, value.clone());
                self.result = value;
            },
            Operation::Or(l, r) => {
                let mut value = frame.read(l);
                let other = frame.read(r);
                value.or(&other);
                frame.write(l, value.clone());
                self.result = value;
            },
            Operation::Not(l) => {
                let mut value = frame.read(l);
                value.not();
                frame.write(l, value.clone());
                self.result = value;
            },
            _ => {},
        }
        assert(frame@ =~= current(expected));
        close_frame(&mut self.scopes, frame);
        assert(self@.scopes =~= expected.scopes);
        Request::Continue
    }

    /// Ends the run after a fault.
    fn halt(&mut self)
        requires
            old(self).wf(),
        ensures
            final(self).wf(),
            final(self).program == old(self).program,
            final(self)@ == halt(old(self)@),
    {
        self.control = Vec::new();
        self.awaited = None;
        self.halted = true;
        assert(self@.control =~= Seq::empty());
    }

    /// Calls the function `name` of the class numbered `class`.
    fn run_function(&mut self, class: u32, name: &String) -> (request: Request)
        requires
            old(self).wf(),
        ensures
            final(self).wf(),
            final(self).program == old(self).program,
            (final(self)@, request@) == run_function(old(self).program(), old(self)@, class, name@),
    {
        let program: &'p Program = self.program;
        match program.function(class, name) {
            Err(fault) => {
                self.halt();
                Request::Fault(fault)
            },
            Ok(function) => {
                let ghost expected = run_function(old(self).program(), old(self)@, class, name@).0;
                close_frame(&mut self.scopes, Frame::new());
                self.control.push(Task::Return);
                self.control.push(Task::Sequence { operations: &function.operations, next: 0 });
                assert(self@.control =~= expected.control);
                Request::Continue
            },
        }
    }

    /// Executes one operation.
    fn run_operation(&mut self, operation: &'p Operation) -> (request: Request)
        requires
            old(self).wf(),
        ensures
            final(self).wf(),
            final(self).program == old(self).program,
            (final(self)@, request@) == run_operation(old(self).program(), old(self)@, operation@),
    {
        match operation {
            Operation::Add(l, r) => self.run_arithmetic(Arithmetic::Add, l, r),
            Operation::Sub(l, r) => self.run_arithmetic(Arithmetic::Sub, l, r),
            Operation::Mul(l, r) => self.run_arithmetic(Arithmetic::Mul, l, r),
            Operation::Div(l, r) => self.run_arithmetic(Arithmetic::Div, l, r),
            Operation::Mod(l, r) => self.run_arithmetic(Arithmetic::Mod, l, r),
            Operation::Assign(l, literal) => self.run_assign(l, literal),
            Operation::Equal(l, r) => self.run_compare(Relation::Equal, l, r),
            Operation::NotEqual(l, r) => self.run_compare(Relation::NotEqual, l, r),
            Operation::Greater(l, r) => self.run_compare(Relation::Greater, l, r),
            Operation::Less(l, r) => self.run_compare(Relation::Less, l, r),
            Operation::GreaterEqual(l, r) => self.run_compare(Relation::GreaterEqual, l, r),
            Operation::LessEqual(l, r) => self.run_compare(Relation::LessEqual, l, r),
            Operation::And(_, _) | Operation::Or(_, _) | Operation::Not(_) => self.run_logic(
                operation,
            ),
            Operation::Print(l) => self.run_print(l),
            Operation::Call(class, name) => {
                let top = open_frame(&mut self.scopes);
                close_frame(&mut self.scopes, top);
                assert(self@.scopes =~= with_frame(old(self)@, current(old(self)@)).scopes);
                self.run_function(*class, name)
            },
            Operation::Conditional { condition, then_branch, else_branch } => {
                proof {
                    lemma_conditional_model(*operation);
                }
                let ghost expected = run_operation(old(self).program(), old(self)@, operation@).0;
                self.control.push(Task::Branch { then_branch, else_branch });
                self.control.push(Task::Condition(&**condition));
                assert(self@.control =~= expected.control);
                Request::Continue
            },
        }
    }

    /// Takes the reply that the machine waits for.
    fn answer(&mut self, reply: Reply) -> (request: Request)
        requires
            old(self).wf(),
        ensures
            final(self).wf(),
            final(self).program == old(self).program,
            (final(self)@, request@) == answer(old(self)@, reply@),
    {
        let ghost expected = answer(old(self)@, reply@).0;
        match self.awaited.take() {
            None => Request::Continue,
            Some(Awaited::Number { target, operator, left, right }) => {
                match reply {
                    Reply::Number(number) => {
                        let mut frame = open_frame(&mut self.scopes);
                        frame.write(target, Data::Number(number.clone()));
                        self.result = Data::Number(number);
                        close_frame(&mut self.scopes, frame);
                        assert(self@.scopes =~= expected.scopes);
                        Request::Continue
                    },
                    _ => {
                        let request = Request::Arithmetic {
                            operator,
                            left: left.clone(),
                            right: right.clone(),
                        };
                        self.awaited = Some(Awaited::Number { target, operator, left, right });
                        request
                    },
                }
            },
            Some(Awaited::Order { target, relation, left, right }) => {
                match reply {
                    Reply::Order(order) => {
                        let verdict = relation.holds(order);
                        let mut frame = open_frame(&mut self.scopes);
                        frame.write(target, Data::Bool(verdict));
                        self.result = Data::Bool(verdict);
                        close_frame(&mut self.scopes, frame);
                        assert(self@.scopes =~= expected.scopes);
                        Request::Continue
                    },
                    _ => {
                        let request = Request::Compare { left: left.clone(), right: right.clone() };
                        self.awaited = Some(Awaited::Order { target, relation, left, right });
                        request
                    },
                }
            },
        }
    }

    /// Takes up the work that was put off last.
    fn resume(&mut self) -> (request: Request)
        requires
            old(self).wf(),
            old(self)@.control.len() > 0,
        ensures
            final(self).wf(),
            final(self).program == old(self).program,
            (final(self)@, request@) == resume(old(self).program(), old(self)@),
    {
        let ghost expected = resume(old(self).program(), old(self)@).0;
        let ghost rest = old(self)@.control.drop_last();
        let task = self.control.pop();
        assert(self@.control =~= rest);
        match task {
            None => Request::Continue,
            Some(Task::Sequence { operations, next }) => {
                if next < operations.len() {
                    self.control.push(Task::Sequence { operations, next: next + 1 });
                    assert(self@.control =~= rest.push(
                        TaskView::Sequence {
                            operations: models(operations@),
                            next: (next + 1) as nat,
                        },
                    ));
                    self.run_operation(&operations[next])
                } else {
                    self.result = Data::Unset;
                    Request::Continue
                }
            },
            Some(Task::Condition(operation)) => self.run_operation(operation),
            Some(Task::Branch { then_branch, else_branch }) => {
                let chosen = match &self.result {
                    Data::Bool(true) => Some(then_branch),
                    _ => match else_branch {
                        Some(operations) => Some(operations),
                        None => None,
                    },
                };
                match chosen {
                    Some(operations) => {
                        self.control.push(Task::Sequence { operations, next: 0 });
                        assert(self@.control =~= expected.control);
                    },
                    None => {
                        self.result = Data::Unset;
                    },
                }
                Request::Continue
            },
            Some(Task::Return) => {
                self.scopes.pop();
                assert(self@.scopes =~= expected.scopes);
                self.result = Data::Unset;
                Request::Continue
            },
        }
    }

    /// Starts the next top-level statement.
    fn proceed(&mut self) -> (request: Request)
        requires
            old(self).wf(),
        ensures
            final(self).wf(),
            final(self).program == old(self).program,
            (final(self)@, request@) == proceed(old(self).program(), old(self)@),
    {
        let program: &'p Program = self.program;
        if self.halted || self.statement >= program.statements.len() {
            return Request::Finished;
        }
        let statement = &program.statements[self.statement];
        self.statement = self.statement + 1;
        self.run_function(statement.0, &statement.1)
    }

    /// Makes one transition and says what the host is asked.
    ///
    /// `reply` is the host's answer where the call before asked for a number
    /// or an order; it is not read where nothing was asked.
    pub fn step(&mut self, reply: Reply) -> (request: Request)
        requires
            old(self).wf(),
        ensures
            final(self).wf(),
            final(self).program() == old(self).program(),
            (final(self)@, request@) == step(old(self).program(), old(self)@, reply@),
    {
        if self.awaited.is_some() {
            self.answer(reply)
        } else if self.control.len() > 0 {
            self.resume()
        } else {
            self.proceed()
        }
    }

    /// Makes transitions up to the first that asks something of the host,
    /// `budget` at most and one at least, and says what the last of them
    /// asks: `Request::Continue` where the budget ran out before anything was
    /// asked.
    ///
    /// `reply` is the host's answer to what the call before asked.
    pub fn run(&mut self, reply: Reply, budget: usize) -> (request: Request)
        requires
            old(self).wf(),
        ensures
            final(self).wf(),
            final(self).program() == old(self).program(),
            (final(self)@, request@) == run(old(self).program(), old(self)@, reply@, budget as nat),
    {
        let mut request = self.step(reply);
        let mut left = budget;
        while left > 1 && matches!(request, Request::Continue)
            invariant
                self.wf(),
                self.program() == old(self).program(),
                run(old(self).program(), old(self)@, reply@, budget as nat) == (if left > 1
                    && request@ is Continue {
                    run(self.program(), self@, ReplyView::Nothing, (left - 1) as nat)
                } else {
                    (self@, request@)
                }),
            decreases left,
        {
            left = left - 1;
            request = self.step(Reply::Nothing);
        }
        request
    }
}

} // verus!
