//! The program that the parser builds and the machine executes: classes of
//! named functions, each a sequence of operations, and the top-level
//! statements.

use vstd::prelude::*;
use std::collections::HashMap;
use crate::table::Table;
use crate::value::{Arithmetic, Data, DataView, Relation};

verus! {

/// One executable step of a function.
///
/// The arithmetic operations combine the values of two variables and store
/// what comes of it in the first; each does what its name says. The
/// comparisons compare the value of the first variable with that of the
/// second and store the truth value in the first.
#[derive(Debug, PartialEq)]
pub enum Operation {
    Add(String, String),
    Sub(String, String),
    Mul(String, String),
    Div(String, String),
    Mod(String, String),
    Assign(String, Data),
    Equal(String, String),
    NotEqual(String, String),
    Greater(String, String),
    Less(String, String),
    GreaterEqual(String, String),
    LessEqual(String, String),
    And(String, String),
    Or(String, String),
    Not(String),
    Print(String),
    Call(u32, String),
    Conditional {
        condition: Box<Operation>,
        then_branch: Vec<Operation>,
        else_branch: Option<Vec<Operation>>,
    },
}

/// The mathematical content of an [`Operation`]. The arithmetic operations
/// and the comparisons are each one case, told apart by their operator.
pub ghost enum OperationView {
    Arithmetic(Arithmetic, Seq<char>, Seq<char>),
    Assign(Seq<char>, DataView),
    Compare(Relation, Seq<char>, Seq<char>),
    And(Seq<char>, Seq<char>),
    Or(Seq<char>, Seq<char>),
    Not(Seq<char>),
    Print(Seq<char>),
    Call(u32, Seq<char>),
    Conditional {
        condition: Box<OperationView>,
        then_branch: Seq<OperationView>,
        else_branch: Option<Seq<OperationView>>,
    },
}

impl Operation {
    /// The mathematical content of this operation.
    pub open spec fn model(&self) -> OperationView
        decreases self,
    {
        match self {
            Operation::Add(l, r) => OperationView::Arithmetic(Arithmetic::Add, l@, r@),
            Operation::Sub(l, r) => OperationView::Arithmetic(Arithmetic::Sub, l@, r@),
            Operation::Mul(l, r) => OperationView::Arithmetic(Arithmetic::Mul, l@, r@),
            Operation::Div(l, r) => OperationView::Arithmetic(Arithmetic::Div, l@, r@),
            Operation::Mod(l, r) => OperationView::Arithmetic(Arithmetic::Mod, l@, r@),
            Operation::Assign(l, d) => OperationView::Assign(l@, d@),
            Operation::Equal(l, r) => OperationView::Compare(Relation::Equal, l@, r@),
            Operation::NotEqual(l, r) => OperationView::Compare(Relation::NotEqual, l@, r@),
            Operation::Greater(l, r) => OperationView::Compare(Relation::Greater, l@, r@),
            Operation::Less(l, r) => OperationView::Compare(Relation::Less, l@, r@),
            Operation::GreaterEqual(l, r) => OperationView::Compare(
                Relation::GreaterEqual,
                l@,
                r@,
            ),
            Operation::LessEqual(l, r) => OperationView::Compare(Relation::LessEqual, l@, r@),
            Operation::And(l, r) => OperationView::And(l@, r@),
            Operation::Or(l, r) => OperationView::Or(l@, r@),
            Operation::Not(l) => OperationView::Not(l@),
            Operation::Print(l) => OperationView::Print(l@),
            Operation::Call(class, name) => OperationView::Call(*class, name@),
            Operation::Conditional { condition, then_branch, else_branch } => {
                OperationView::Conditional {
                    condition: Box::new(condition.model()),
                    then_branch: Seq::new(
                        then_branch@.len(),
                        |i: int|
                            if 0 <= i < then_branch@.len() {
                                then_branch@[i].model()
                            } else {
                                arbitrary()
                            },
                    ),
                    else_branch: match else_branch {
                        Some(o) => Some(
                            Seq::new(
                                o@.len(),
                                |i: int|
                                    if 0 <= i < o@.len() {
                                        o@[i].model()
                                    } else {
                                        arbitrary()
                                    },
                            ),
                        ),
                        None => None,
                    },
                }
            },
        }
    }
}

impl View for Operation {
    type V = OperationView;

    open spec fn view(&self) -> OperationView {
        self.model()
    }
}

/// The mathematical content of a sequence of operations.
pub open spec fn models(operations: Seq<Operation>) -> Seq<OperationView> {
    Seq::new(operations.len(), |i: int| operations[i]@)
}

/// The content of a conditional is made of the contents of its parts.
pub proof fn lemma_conditional_model(operation: Operation)
    requires
        operation is Conditional,
    ensures
        operation@ == (OperationView::Conditional {
            condition: Box::new(operation->condition@),
            then_branch: models(operation->then_branch@),
            else_branch: match operation->else_branch {
                Some(o) => Some(models(o@)),
                None => None,
            },
        }),
{
    let view = operation@;
    assert(view->then_branch =~= models(operation->then_branch@));
    match operation->else_branch {
        Some(o) => {
            assert(view->else_branch->0 =~= models(o@));
        },
        None => {},
    }
}

/// A named, ordered sequence of operations.
#[derive(Debug, PartialEq)]
pub struct Function {
    pub operations: Vec<Operation>,
}

impl View for Function {
    type V = Seq<OperationView>;

    open spec fn view(&self) -> Seq<OperationView> {
        models(self.operations@)
    }
}

/// The mathematical content of a class: the operations of each of its
/// functions, by name.
pub type ClassView = Map<Seq<char>, Seq<OperationView>>;

/// A numbered collection of functions with distinct names.
#[derive(Debug)]
pub struct Class {
    functions: Table<Function>,
}

impl View for Class {
    type V = ClassView;

    closed spec fn view(&self) -> ClassView {
        self.functions@.map_values(|f: Function| f@)
    }
}

impl Class {
    /// Whether the class is well formed.
    pub closed spec fn wf(&self) -> bool {
        self.functions.wf()
    }

    /// A class without functions.
    pub fn new() -> (r: Class)
        ensures
            r.wf(),
            r@ == ClassView::empty(),
    {
        let r = Class { functions: Table::new() };
        assert(r@ =~= ClassView::empty());
        r
    }

    /// Whether the class has a function named `name`.
    pub fn contains(&self, name: &String) -> (r: bool)
        ensures
            r == self@.contains_key(name@),
    {
        self.functions.contains(name)
    }

    /// The function named `name`, if the class has one.
    pub fn get(&self, name: &String) -> (r: Option<&Function>)
        requires
            self.wf(),
        ensures
            match r {
                Some(f) => self@.contains_key(name@) && f@ == self@[name@],
                None => !self@.contains_key(name@),
            },
    {
        self.functions.get(name)
    }

    /// Adds `function` under `name`, unless the class has a function of that
    /// name already; says whether it was added.
    pub fn define(&mut self, name: String, function: Function) -> (added: bool)
        requires
            old(self).wf(),
        ensures
            final(self).wf(),
            added == !old(self)@.contains_key(name@),
            final(self)@ == if added {
                old(self)@.insert(name@, function@)
            } else {
                old(self)@
            },
    {
        if self.functions.contains(&name) {
            false
        } else {
            let ghost key = name@;
            self.functions.insert(name, function);
            assert(self@ =~= old(self)@.insert(key, function@));
            true
        }
    }
}

/// The mathematical content of a [`Program`].
pub ghost struct ProgramView {
    /// The classes, by their numbers.
    pub classes: Map<u32, ClassView>,
    /// The top-level statements in the order in which they run: each names a
    /// class and a function of it.
    pub statements: Seq<(u32, Seq<char>)>,
}

/// The operations that a call of `name` in the class numbered `class` runs,
/// or why there are none.
pub open spec fn callee(program: ProgramView, class: u32, name: Seq<char>) -> Result<
    Seq<OperationView>,
    FaultView,
> {
    if !program.classes.contains_key(class) {
        Err(FaultView::NotAClass(class))
    } else if !program.classes[class].contains_key(name) {
        Err(FaultView::NotAFunction(name))
    } else {
        Ok(program.classes[class][name])
    }
}

/// The one failure of a run: a call or a top-level statement names a class or
/// a function that the program does not have.
#[derive(Debug, PartialEq)]
pub enum Fault {
    NotAClass(u32),
    NotAFunction(String),
}

/// The mathematical content of a [`Fault`].
pub ghost enum FaultView {
    NotAClass(u32),
    NotAFunction(Seq<char>),
}

impl View for Fault {
    type V = FaultView;

    open spec fn view(&self) -> FaultView {
        match self {
            Fault::NotAClass(class) => FaultView::NotAClass(*class),
            Fault::NotAFunction(name) => FaultView::NotAFunction(name@),
        }
    }
}

/// A parsed program.
#[derive(Debug)]
pub struct Program {
    /// The classes, by their numbers.
    pub classes: HashMap<u32, Class>,
    /// The top-level statements in the order in which they run.
    pub statements: Vec<(u32, String)>,
}

impl View for Program {
    type V = ProgramView;

    open spec fn view(&self) -> ProgramView {
        ProgramView {
            classes: self.classes@.map_values(|c: Class| c@),
            statements: Seq::new(
                self.statements@.len(),
                |i: int| (self.statements@[i].0, self.statements@[i].1@),
            ),
        }
    }
}

impl Program {
    /// Whether the program is well formed: each of its classes is.
    pub open spec fn wf(&self) -> bool {
        forall|class: u32| #[trigger]
            self.classes@.contains_key(class) ==> self.classes@[class].wf()
    }

    /// A program without classes and statements.
    pub fn new() -> (r: Program)
        ensures
            r.wf(),
            r@.classes == Map::<u32, ClassView>::empty(),
            r@.statements == Seq::<(u32, Seq<char>)>::empty(),
    {
        let r = Program { classes: HashMap::new(), statements: Vec::new() };
        assert(r@.classes =~= Map::<u32, ClassView>::empty());
        assert(r@.statements =~= Seq::<(u32, Seq<char>)>::empty());
        r
    }

    /// The function that a call of `name` in the class numbered `class`
    /// runs, or the fault that the call ends in.
    pub fn function(&self, class: u32, name: &String) -> (r: Result<&Function, Fault>)
        requires
            self.wf(),
        ensures
            match r {
                Ok(f) => callee(self@, class, name@) == Ok::<Seq<OperationView>, FaultView>(f@),
                Err(fault) => callee(self@, class, name@) == Err::<Seq<OperationView>, FaultView>(
                    fault@,
                ),
            },
    {
        broadcast use vstd::std_specs::hash::group_hash_axioms;

        match self.classes.get(&class) {
            Some(c) => {
                match c.get(name) {
                    Some(f) => Ok(f),
                    None => Err(Fault::NotAFunction(name.clone())),
                }
            },
            None => Err(Fault::NotAClass(class)),
        }
    }
}

} // verus!
