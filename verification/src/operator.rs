use vstd::prelude::*;

use crate::access::Mode;

verus! {

/// The operators the interpreter runs itself.
#[derive(Clone, Copy, Debug, PartialEq, Eq, Structural)]
pub enum Operator {
    /// Makes the object on top of the operand stack literal.
    Cvlit,
    /// Makes the object on top of the operand stack executable.
    Cvx,
    /// Executes the object on top of the operand stack.
    Exec,
    /// Delivers buffered output.
    Flush,
    /// Writes a string to standard output.
    Print,
    Quit,
}

/// The name an operator is known by.
pub open spec fn spec_operator_name(op: Operator) -> Seq<char> {
    match op {
        Operator::Cvlit => "cvlit"@,
        Operator::Cvx => "cvx"@,
        Operator::Exec => "exec"@,
        Operator::Flush => "flush"@,
        Operator::Print => "print"@,
        Operator::Quit => "quit"@,
    }
}

impl Operator {
    /// The name the operator is known by.
    pub fn name(self) -> (r: &'static str)
        ensures
            r@ == spec_operator_name(self),
    {
        match self {
            Operator::Cvlit => "cvlit",
            Operator::Cvx => "cvx",
            Operator::Exec => "exec",
            Operator::Flush => "flush",
            Operator::Print => "print",
            Operator::Quit => "quit",
        }
    }
}

/// An operator as an object: the operator and its attribute.
#[derive(Clone, Copy, Debug)]
pub struct OperatorObject {
    operator: Operator,
    pub mode: Mode,
}

impl OperatorObject {
    pub closed spec fn spec_operator(&self) -> Operator {
        self.operator
    }

    /// The object's attribute.
    pub closed spec fn spec_mode(&self) -> Mode {
        self.mode
    }

    pub fn operator(&self) -> (r: Operator)
        ensures
            r == self.spec_operator(),
    {
        self.operator
    }

    /// Whether the two objects hold the same operator (attributes are not compared).
    pub fn same_operator(&self, other: &OperatorObject) -> (r: bool)
        ensures
            r == (self.spec_operator() == other.spec_operator()),
    {
        self.operator == other.operator
    }
}

impl From<Operator> for OperatorObject {
    /// An executable operator object.
    fn from(value: Operator) -> (r: Self)
        ensures
            r.spec_operator() == value,
            r.spec_mode() == Mode::Executable,
    {
        OperatorObject { operator: value, mode: Mode::Executable }
    }
}

impl vstd::std_specs::convert::FromSpecImpl<Operator> for OperatorObject {
    open spec fn obeys_from_spec() -> bool {
        true
    }

    closed spec fn from_spec(v: Operator) -> OperatorObject {
        OperatorObject { operator: v, mode: Mode::Executable }
    }
}

} // verus!
