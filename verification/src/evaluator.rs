use vstd::prelude::*;

use crate::error::{fails_with, Error, ErrorKind, Result};
use crate::execution::{
    run_system, system_can_run, system_post, system_pre, system_procedures, topmost,
    fresh, ExecutionState, Procedure, Step,
};
use crate::operators::{same_but_stack, InterpreterState, Object};
use crate::stack::Stack;
use crate::token::Token;
use crate::tokenizer::{convert, convert_spec, value_view, Conversion, TokenValue, ValueView};

verus! {

/// The objects evaluation pushes as they are: numbers and booleans.
pub open spec fn pushable(o: Object) -> bool {
    o is Integer || o is Real || o is Boolean
}

/// Whether the procedure `p` can run on `st`: a defined object is pushed where it is a
/// number or a boolean; an operator needs what `system_pre` says.
pub open spec fn runnable(p: Procedure, st: InterpreterState) -> bool {
    match p {
        Procedure::Defined(o) => pushable(o),
        Procedure::System(op) => system_pre(op, st),
    }
}

/// Whether evaluating a token that converts to `c` goes on without a panic: the
/// conversion does not abort, a string is not evaluated, and a name is unbound or bound
/// to a procedure that can run.
pub open spec fn evaluable(st: ExecutionState, c: Conversion) -> bool {
    match c {
        Conversion::Aborts => false,
        Conversion::Failed(_) => true,
        Conversion::Value(v) => match v {
            ValueView::String(_) => false,
            ValueView::Name(n) => match topmost(st.dict_stack@, n) {
                Some(p) => runnable(p, st.interpreter),
                None => true,
            },
            _ => true,
        },
    }
}

/// `after` is `before` with `o` pushed on the operand stack.
pub open spec fn pushed(before: ExecutionState, after: ExecutionState, o: Object) -> bool {
    &&& same_but_stack(after.interpreter, before.interpreter)
    &&& after.interpreter.operand_stack@ == before.interpreter.operand_stack@.push(o)
    &&& after.execution_stack == before.execution_stack
    &&& after.dict_stack == before.dict_stack
}

/// The outcome of evaluating the name `name`: `undefined` where no dictionary binds it, a
/// defined object pushed, an operator run.
pub open spec fn name_evaluation(
    before: ExecutionState,
    name: Seq<char>,
    after: ExecutionState,
    r: Result<Step>,
) -> bool {
    match topmost(before.dict_stack@, name) {
        None => fails_with(r, ErrorKind::Undefined) && after == before,
        Some(Procedure::Defined(o)) => r matches Ok(Step::Done) && pushed(before, after, o),
        Some(Procedure::System(op)) => {
            &&& system_post(op, before.interpreter, after.interpreter, r)
            &&& after.execution_stack == before.execution_stack
            &&& after.dict_stack == before.dict_stack
        },
    }
}

/// The outcome of evaluating a token that converts to `c`: a conversion error raised, an
/// integer or a boolean pushed, number text handed to the caller, a name evaluated.
pub open spec fn evaluation(
    before: ExecutionState,
    c: Conversion,
    after: ExecutionState,
    r: Result<Step>,
) -> bool {
    match c {
        Conversion::Aborts => false,
        Conversion::Failed(k) => fails_with(r, k) && after == before,
        Conversion::Value(v) => match v {
            ValueView::Integer(i) => r matches Ok(Step::Done) && pushed(
                before,
                after,
                Object::Integer(i),
            ),
            ValueView::Boolean(b) => r matches Ok(Step::Done) && pushed(
                before,
                after,
                Object::Boolean(b),
            ),
            ValueView::Numeric(t) => (r matches Ok(Step::ReadNumeric(s)) && s@ == t) && after
                == before,
            ValueView::Real(t) => (r matches Ok(Step::ReadReal(s)) && s@ == t) && after == before,
            ValueView::String(_) => false,
            ValueView::Name(n) => name_evaluation(before, n, after, r),
        },
    }
}

/// Evaluates tokens on an execution state that starts with the system dictionary.
pub struct Evaluator {
    execution_state: ExecutionState,
}

impl Default for Evaluator {
    fn default() -> (r: Self)
        ensures
            fresh(r.spec_state()),
            r.spec_state().dict_stack@.len() == 1,
            r.spec_state().dict_stack@[0]@ == system_procedures(),
    {
        Evaluator { execution_state: ExecutionState::default() }
    }
}

impl Evaluator {
    pub closed spec fn spec_state(&self) -> ExecutionState {
        self.execution_state
    }

    /// The execution state.
    pub fn state(&self) -> (r: &ExecutionState)
        ensures
            *r == self.spec_state(),
    {
        &self.execution_state
    }

    /// The execution state, for the caller to carry out what a step leaves to it.
    pub fn state_mut(&mut self) -> (r: &mut ExecutionState)
        ensures
            *r == old(self).spec_state(),
            final(self).spec_state() == *final(r),
    {
        &mut self.execution_state
    }

    /// Takes every object off the operand stack; the stack returned holds them in the
    /// order they were taken, the former top at its bottom.
    pub fn dump_operand_stack(&mut self) -> (r: Stack<Object>)
        ensures
            r@ == old(self).spec_state().interpreter.operand_stack@.reverse(),
            final(self).spec_state().interpreter.operand_stack@ == Seq::<Object>::empty(),
            same_but_stack(
                final(self).spec_state().interpreter,
                old(self).spec_state().interpreter,
            ),
            final(self).spec_state().execution_stack == old(self).spec_state().execution_stack,
            final(self).spec_state().dict_stack == old(self).spec_state().dict_stack,
    {
        let ghost s = self.execution_state.interpreter.operand_stack@;
        let mut objs: Stack<Object> = Stack::new();
        while self.execution_state.interpreter.operand_stack.len() > 0
            invariant
                self.execution_state.interpreter.operand_stack@ == s.subrange(
                    0,
                    self.execution_state.interpreter.operand_stack@.len() as int,
                ),
                self.execution_state.interpreter.operand_stack@.len() <= s.len(),
                objs@ == s.subrange(
                    self.execution_state.interpreter.operand_stack@.len() as int,
                    s.len() as int,
                ).reverse(),
                same_but_stack(
                    self.execution_state.interpreter,
                    old(self).execution_state.interpreter,
                ),
                self.execution_state.execution_stack == old(self).execution_state.execution_stack,
                self.execution_state.dict_stack == old(self).execution_state.dict_stack,
                s == old(self).execution_state.interpreter.operand_stack@,
            decreases self.execution_state.interpreter.operand_stack@.len(),
        {
            let ghost n = self.execution_state.interpreter.operand_stack@.len();
            if let Some(obj) = self.execution_state.interpreter.operand_stack.pop() {
                objs.push(obj);
                proof {
                    assert(self.execution_state.interpreter.operand_stack@ =~= s.subrange(
                        0,
                        n - 1,
                    ));
                    assert(objs@ =~= s.subrange(n - 1, s.len() as int).reverse());
                }
            }
        }
        assert(s.subrange(0, s.len() as int) =~= s);
        objs
    }

    /// Pushes a number or a boolean.
    pub fn evaluate_object(&mut self, obj: Object) -> (r: Result<Step>)
        requires
            pushable(obj),
        ensures
            r matches Ok(Step::Done),
            pushed(old(self).spec_state(), final(self).spec_state(), obj),
    {
        self.execution_state.interpreter.push(obj);
        Ok(Step::Done)
    }

    /// Evaluates a name: pushes the object it is bound to or runs its operator.
    fn evaluate_name(&mut self, name: &String) -> (r: Result<Step>)
        requires
            match topmost(old(self).spec_state().dict_stack@, name@) {
                Some(p) => runnable(p, old(self).spec_state().interpreter),
                None => true,
            },
        ensures
            name_evaluation(old(self).spec_state(), name@, final(self).spec_state(), r),
    {
        match self.execution_state.find(name) {
            None => Err(Error::from(ErrorKind::Undefined)),
            Some(Procedure::Defined(obj)) => self.evaluate_object(obj),
            Some(Procedure::System(op)) => run_system(op, &mut self.execution_state.interpreter),
        }
    }

    /// Evaluates a converted token.
    fn evaluate_value(&mut self, value: TokenValue) -> (r: Result<Step>)
        requires
            evaluable(old(self).spec_state(), Conversion::Value(value_view(value))),
        ensures
            evaluation(
                old(self).spec_state(),
                Conversion::Value(value_view(value)),
                final(self).spec_state(),
                r,
            ),
    {
        match value {
            TokenValue::Integer(i) => self.evaluate_object(Object::Integer(i)),
            TokenValue::Boolean(b) => self.evaluate_object(Object::Boolean(b)),
            TokenValue::Numeric(text) => Ok(Step::ReadNumeric(text)),
            TokenValue::Real(text) => Ok(Step::ReadReal(text)),
            TokenValue::Name(name) => self.evaluate_name(&name),
            TokenValue::String(_) => Err(Error::from(ErrorKind::Unregistered)),
        }
    }

    /// Evaluates a token: converts it, then pushes a number or a boolean, evaluates a
    /// name, or hands number text that takes floating point to the caller.
    pub fn evaluate(&mut self, token: &Token) -> (r: Result<Step>)
        requires
            evaluable(old(self).spec_state(), convert_spec(token.spec_kind(), token.spec_value())),
        ensures
            evaluation(
                old(self).spec_state(),
                convert_spec(token.spec_kind(), token.spec_value()),
                final(self).spec_state(),
                r,
            ),
    {
        match convert(token) {
            Some(Ok(value)) => self.evaluate_value(value),
            Some(Err(e)) => Err(e),
            None => Err(Error::from(ErrorKind::Unregistered)),
        }
    }

    /// `evaluate`, or `None` with the state unchanged where it would panic.
    pub fn try_evaluate(&mut self, token: &Token) -> (r: Option<Result<Step>>)
        ensures
            r is None <==> !evaluable(
                old(self).spec_state(),
                convert_spec(token.spec_kind(), token.spec_value()),
            ),
            r is None ==> final(self).spec_state() == old(self).spec_state(),
            r matches Some(x) ==> evaluation(
                old(self).spec_state(),
                convert_spec(token.spec_kind(), token.spec_value()),
                final(self).spec_state(),
                x,
            ),
    {
        match convert(token) {
            None => None,
            Some(Err(e)) => Some(Err(e)),
            Some(Ok(value)) => {
                match &value {
                    TokenValue::String(_) => {
                        return None;
                    },
                    TokenValue::Name(name) => {
                        match self.execution_state.find(name) {
                            Some(p) => {
                                if !can_run(p, &self.execution_state.interpreter) {
                                    return None;
                                }
                            },
                            None => {},
                        }
                    },
                    _ => {},
                }
                Some(self.evaluate_value(value))
            },
        }
    }
}

/// Whether the procedure `p` can run on `state`.
pub fn can_run(p: Procedure, state: &InterpreterState) -> (b: bool)
    ensures
        b == runnable(p, *state),
{
    match p {
        Procedure::Defined(o) => match o {
            Object::Integer(_) | Object::Real(_) | Object::Boolean(_) => true,
            _ => false,
        },
        Procedure::System(op) => system_can_run(op, state),
    }
}

} // verus!
