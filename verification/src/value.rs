//! Runtime values and literals, and the operations of the language on them.
//!
//! A number is a 64-bit float that this library never computes with: it is
//! carried as its decimal notation, and sums, products and the order of two
//! numbers are found by the host and handed in.

use vstd::prelude::*;
use vstd::string::StringExecFns;
use crate::text::{compare_text, lexical_order, Order};

verus! {

/// A value of the language: what a variable holds, or a literal in the
/// program text.
#[derive(Debug, PartialEq)]
pub enum Data {
    /// A reference to a variable by name. It stands only in literals: a
    /// variable never holds one.
    Var(String),
    /// A number, as its decimal notation.
    Number(String),
    /// A text.
    Str(String),
    /// A truth value.
    Bool(bool),
    /// The value of every variable that was never written.
    Unset,
}

/// The mathematical content of a [`Data`].
pub ghost enum DataView {
    Var(Seq<char>),
    Number(Seq<char>),
    Str(Seq<char>),
    Bool(bool),
    Unset,
}

impl View for Data {
    type V = DataView;

    open spec fn view(&self) -> DataView {
        match self {
            Data::Var(s) => DataView::Var(s@),
            Data::Number(s) => DataView::Number(s@),
            Data::Str(s) => DataView::Str(s@),
            Data::Bool(b) => DataView::Bool(*b),
            Data::Unset => DataView::Unset,
        }
    }
}

/// The five arithmetic operators.
#[derive(Clone, Copy, Debug, PartialEq, Eq, Structural)]
pub enum Arithmetic {
    Add,
    Sub,
    Mul,
    Div,
    Mod,
}

/// The six comparison operators.
#[derive(Clone, Copy, Debug, PartialEq, Eq, Structural)]
pub enum Relation {
    Equal,
    NotEqual,
    Greater,
    Less,
    GreaterEqual,
    LessEqual,
}

/// The order of `false` and `true`: `false` comes first.
pub open spec fn bool_order(a: bool, b: bool) -> Order {
    if a == b {
        Order::Equal
    } else if b {
        Order::Less
    } else {
        Order::Greater
    }
}

/// The partial order of the language. Two truth values, two texts and two
/// numbers are ordered: truth values with `false` first, texts
/// lexicographically, numbers as `numeric` says (`None` where the two numbers
/// have no order). Every other pair of values is incomparable.
pub open spec fn partial_order(a: DataView, b: DataView, numeric: Option<Order>) -> Option<Order> {
    match (a, b) {
        (DataView::Bool(x), DataView::Bool(y)) => Some(bool_order(x, y)),
        (DataView::Str(x), DataView::Str(y)) => Some(lexical_order(x, y)),
        (DataView::Number(_), DataView::Number(_)) => numeric,
        _ => None,
    }
}

/// Whether a comparison holds of two values that stand in `order` to each
/// other (`None`: incomparable). Of incomparable values only `NotEqual`
/// holds.
pub open spec fn relation_holds(relation: Relation, order: Option<Order>) -> bool {
    match relation {
        Relation::Equal => order == Some(Order::Equal),
        Relation::NotEqual => order != Some(Order::Equal),
        Relation::Greater => order == Some(Order::Greater),
        Relation::Less => order == Some(Order::Less),
        Relation::GreaterEqual => order == Some(Order::Greater) || order == Some(Order::Equal),
        Relation::LessEqual => order == Some(Order::Less) || order == Some(Order::Equal),
    }
}

/// The sum of two values that are not both numbers: of two texts the second
/// appended to the first, of any other pair the left value unchanged. The
/// sum of two numbers is the host's to find, and is not said here.
pub open spec fn sum_of(a: DataView, b: DataView) -> DataView
    recommends
        !(a is Number && b is Number),
{
    match (a, b) {
        (DataView::Str(x), DataView::Str(y)) => DataView::Str(x + y),
        (DataView::Number(_), DataView::Number(_)) => arbitrary(),
        _ => a,
    }
}

/// The conjunction of two values: of two truth values their `&&`, of any
/// other pair the left value unchanged.
pub open spec fn and_of(a: DataView, b: DataView) -> DataView {
    match (a, b) {
        (DataView::Bool(x), DataView::Bool(y)) => DataView::Bool(x && y),
        _ => a,
    }
}

/// The disjunction of two values: of two truth values their `||`, of any
/// other pair the left value unchanged.
pub open spec fn or_of(a: DataView, b: DataView) -> DataView {
    match (a, b) {
        (DataView::Bool(x), DataView::Bool(y)) => DataView::Bool(x || y),
        _ => a,
    }
}

/// The negation of a value: of a truth value its `!`, of any other value the
/// value unchanged.
pub open spec fn not_of(a: DataView) -> DataView {
    match a {
        DataView::Bool(x) => DataView::Bool(!x),
        _ => a,
    }
}

/// The text that printing a value writes: a truth value as `true` or
/// `false`, a text as its contents, the unset value as `None`, a reference as
/// its name between backquotes after `Var `, and a number as its notation
/// (the host, which knows numbers, formats it instead).
pub open spec fn printed(a: DataView) -> Seq<char> {
    match a {
        DataView::Bool(b) => if b {
            "true"@
        } else {
            "false"@
        },
        DataView::Str(s) => s,
        DataView::Unset => "None"@,
        DataView::Var(v) => "Var `"@ + v + "`"@,
        DataView::Number(n) => n,
    }
}

impl Relation {
    /// Whether this comparison holds of two values in the given order.
    pub fn holds(self, order: Option<Order>) -> (r: bool)
        ensures
            r == relation_holds(self, order),
    {
        match self {
            Relation::Equal => matches!(order, Some(Order::Equal)),
            Relation::NotEqual => !matches!(order, Some(Order::Equal)),
            Relation::Greater => matches!(order, Some(Order::Greater)),
            Relation::Less => matches!(order, Some(Order::Less)),
            Relation::GreaterEqual => matches!(order, Some(Order::Greater) | Some(Order::Equal)),
            Relation::LessEqual => matches!(order, Some(Order::Less) | Some(Order::Equal)),
        }
    }
}

impl Default for Data {
    /// The value of a variable that was never written.
    fn default() -> (r: Data)
        ensures
            r@ == DataView::Unset,
    {
        Data::Unset
    }
}

impl Clone for Data {
    /// A copy of this value.
    fn clone(&self) -> (r: Data)
        ensures
            r@ == self@,
    {
        match self {
            Data::Var(s) => Data::Var(s.clone()),
            Data::Number(s) => Data::Number(s.clone()),
            Data::Str(s) => Data::Str(s.clone()),
            Data::Bool(b) => Data::Bool(*b),
            Data::Unset => Data::Unset,
        }
    }
}

impl Data {
    /// The name that this value refers to, if it is a reference.
    pub fn var(&self) -> (r: Option<&String>)
        ensures
            match self@ {
                DataView::Var(name) => r matches Some(s) && s@ == name,
                _ => r is None,
            },
    {
        match self {
            Data::Var(s) => Some(s),
            _ => None,
        }
    }

    /// The text that printing this value writes.
    pub fn printed(&self) -> (r: String)
        ensures
            r@ == printed(self@),
    {
        match self {
            Data::Bool(b) => if *b {
                String::from_str("true")
            } else {
                String::from_str("false")
            },
            Data::Str(s) => s.clone(),
            Data::Unset => String::from_str("None"),
            Data::Var(v) => {
                let mut text = String::from_str("Var `");
                text.append(v.as_str());
                text.append("`");
                text
            },
            Data::Number(n) => n.clone(),
        }
    }

    /// Whether both values are numbers, so that what arithmetic and
    /// comparison make of them is the host's to find.
    pub fn both_numbers(&self, other: &Data) -> (r: bool)
        ensures
            r == (self@ is Number && other@ is Number),
    {
        matches!(self, Data::Number(_)) && matches!(other, Data::Number(_))
    }

    /// How this value stands to `other` in the partial order of the language,
    /// given the order `numeric` of the two as numbers, which is read only
    /// where both are numbers.
    pub fn partial_order(&self, other: &Data, numeric: Option<Order>) -> (r: Option<Order>)
        ensures
            r == partial_order(self@, other@, numeric),
    {
        match (self, other) {
            (Data::Bool(x), Data::Bool(y)) => {
                if *x == *y {
                    Some(Order::Equal)
                } else if *y {
                    Some(Order::Less)
                } else {
                    Some(Order::Greater)
                }
            },
            (Data::Str(x), Data::Str(y)) => Some(compare_text(x.as_str(), y.as_str())),
            (Data::Number(_), Data::Number(_)) => numeric,
            _ => None,
        }
    }

    /// Replaces this value by its sum with `other`, which is not called for
    /// on two numbers: their sum is the host's to find.
    pub fn add_assign(&mut self, other: &Data)
        requires
            !(old(self)@ is Number && other@ is Number),
        ensures
            final(self)@ == sum_of(old(self)@, other@),
    {
        match self {
            Data::Str(x) => {
                match other {
                    Data::Str(y) => {
                        x.append(y.as_str());
                    },
                    _ => {},
                }
            },
            _ => {},
        }
    }

    /// Replaces this value by its conjunction with `other`.
    pub fn and(&mut self, other: &Data)
        ensures
            final(self)@ == and_of(old(self)@, other@),
    {
        match self {
            Data::Bool(x) => {
                match other {
                    Data::Bool(y) => {
                        *x = *x && *y;
                    },
                    _ => {},
                }
            },
            _ => {},
        }
    }

    /// Replaces this value by its disjunction with `other`.
    pub fn or(&mut self, other: &Data)
        ensures
            final(self)@ == or_of(old(self)@, other@),
    {
        match self {
            Data::Bool(x) => {
                match other {
                    Data::Bool(y) => {
                        *x = *x || *y;
                    },
                    _ => {},
                }
            },
            _ => {},
        }
    }

    /// Replaces this value by its negation.
    pub fn not(&mut self)
        ensures
            final(self)@ == not_of(old(self)@),
    {
        match self {
            Data::Bool(x) => {
                *x = !*x;
            },
            _ => {},
        }
    }
}

} // verus!
