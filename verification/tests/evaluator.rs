use lib::access::Access;
use lib::error::{Error, ErrorKind};
use lib::evaluator::Evaluator;
use lib::execution::{
    run_system, system_dictionary, Dictionary, ExecutionState, Procedure, Step, SystemOperator,
};
use lib::file::FileObject;
use lib::operators::{
    aload, astore, endarray, get, getinterval, length, put, putinterval, Composite,
    InterpreterState, Object,
};
use lib::scanner::{Scanner, Token as ScannedToken};
use lib::token::{Token, TokenKind};

/// Evaluates PostScript text on the evaluator, as the prompt does, and fails on the first
/// error; every step must be done by the library.
fn evaluate_text(ev: &mut Evaluator, input: &str) -> Result<(), Error> {
    let mut scanner = Scanner::new(FileObject::from_bytes(input.as_bytes().to_vec()));
    while let Some(token) = scanner.next() {
        let step = match token? {
            ScannedToken::Integer(i) => ev.evaluate_object(Object::Integer(i)),
            ScannedToken::Name(name) => {
                let text = String::from_utf8(name).unwrap();
                ev.try_evaluate(&Token::new(TokenKind::Name, text)).expect("evaluable")
            },
            other => panic!("unexpected token {other:?}"),
        }?;
        match step {
            Step::Done => {},
            other => panic!("left to the caller: {other:?}"),
        }
    }
    Ok(())
}

fn stack(ev: &Evaluator) -> Vec<Object> {
    ev.state().interpreter.operand_stack.clone()
}

fn name_token(text: &str) -> Token {
    Token::new(TokenKind::Name, text.to_string())
}

fn new_array(state: &mut InterpreterState, inner: Vec<Object>) -> usize {
    let len = inner.len();
    state.arrays.insert(Composite { access: Access::Unlimited, len, inner })
}

fn elements(state: &InterpreterState, idx: usize) -> Vec<Object> {
    state.arrays.get(idx).unwrap().inner.clone()
}

#[test]
fn stack_operators_test_pop() {
    let mut ev = Evaluator::default();
    evaluate_text(&mut ev, "1 2 pop").unwrap();

    assert_eq!(1, stack(&ev).len());
    assert_eq!(vec![Object::Integer(1)], stack(&ev));
}

#[test]
fn test_pop_underflow() {
    let mut ev = Evaluator::default();
    let result = evaluate_text(&mut ev, "pop");

    assert!(result.is_err());
    assert_eq!(ErrorKind::StackUnderflow, result.unwrap_err().kind());
}

#[test]
fn test_startarray() {
    let mut execution_state = ExecutionState::new();

    assert!(run_system(SystemOperator::StartArray, &mut execution_state.interpreter).is_ok());
    assert_eq!(1, execution_state.interpreter.operand_stack.len());
    assert!(
        matches!(execution_state.interpreter.operand_stack.pop(), Some(Object::Mark)),
        "expected mark object"
    );
}

#[test]
fn test_endarray() {
    let mut execution_state = ExecutionState::new();
    let state = &mut execution_state.interpreter;

    for length in 0..5 {
        state.push(Object::Mark);
        for _ in 0..length {
            state.push(Object::Integer(0));
        }

        assert!(endarray(state).is_ok());
        assert_eq!(1, state.operand_stack.len());

        let Some(Object::Array(arr)) = state.operand_stack.pop() else {
            panic!("expected array object");
        };

        assert_eq!(length, elements(state, arr).len());
        for i in 0..length {
            assert_eq!(Object::Integer(0), elements(state, arr)[i]);
        }
    }

    assert!(endarray(state).is_err_and(|e| e.kind() == ErrorKind::UnmatchedMark));
}

#[test]
fn composite_operators_test_length() {
    let mut execution_state = ExecutionState::new();
    let state = &mut execution_state.interpreter;

    for arr_length in 0..5 {
        let arr = new_array(state, vec![Object::Null; arr_length]);
        state.push(Object::Array(arr));

        assert!(length(state).is_ok());
        assert_eq!(1, state.operand_stack.len());

        let Some(Object::Integer(value)) = state.operand_stack.pop() else {
            panic!("expected integer object");
        };

        assert_eq!(arr_length, value as usize);
    }
}

#[test]
fn composite_operators_test_get() {
    let mut execution_state = ExecutionState::new();
    let state = &mut execution_state.interpreter;

    let arr = new_array(state, (0..5).map(Object::Integer).collect());

    for i in 0..5 {
        state.push(Object::Array(arr));
        state.push(Object::Integer(i));

        assert!(get(state).is_ok());
        assert_eq!(1, state.operand_stack.len());

        let Some(Object::Integer(n)) = state.operand_stack.pop() else {
            panic!("expected integer object");
        };

        assert_eq!(i, n);
    }

    state.push(Object::Array(arr));
    state.push(Object::Integer(1000));
    assert!(get(state).is_err_and(|e| e.kind() == ErrorKind::RangeCheck));

    state.push(Object::Integer(0));
    state.push(Object::Integer(0));
    assert!(get(state).is_err_and(|e| e.kind() == ErrorKind::TypeCheck));

    assert!(get(state).is_err_and(|e| e.kind() == ErrorKind::StackUnderflow));
}

#[test]
fn composite_operators_test_put() {
    let mut execution_state = ExecutionState::new();
    let state = &mut execution_state.interpreter;

    let arr = new_array(state, vec![Object::Null; 5]);

    // The objects put are numbers here, where strings were put: the operand stack holds
    // numbers, booleans, marks, nulls and arrays.
    for i in 0..5 {
        let value = Object::Integer(100 + i as i32);
        state.push(Object::Array(arr));
        state.push(Object::Integer(i as i32));
        state.push(value);

        assert!(put(state).is_ok());
        assert_eq!(0, state.operand_stack.len());
        assert_eq!(value, elements(state, arr)[i]);
    }

    state.push(Object::Array(arr));
    state.push(Object::Integer(1000));
    state.push(Object::Integer(0));
    assert!(put(state).is_err_and(|e| e.kind() == ErrorKind::RangeCheck));

    state.push(Object::Integer(0));
    state.push(Object::Integer(0));
    state.push(Object::Integer(0));
    assert!(put(state).is_err_and(|e| e.kind() == ErrorKind::TypeCheck));

    assert!(put(state).is_err_and(|e| e.kind() == ErrorKind::StackUnderflow));
}

#[test]
fn composite_operators_test_getinterval() {
    let mut execution_state = ExecutionState::new();
    let state = &mut execution_state.interpreter;

    let arr = new_array(state, (0..5).map(Object::Integer).collect());

    state.push(Object::Array(arr));
    state.push(Object::Integer(1));
    state.push(Object::Integer(3));

    assert!(getinterval(state).is_ok());
    assert_eq!(1, state.operand_stack.len());

    let Some(Object::Array(subarray)) = state.operand_stack.pop() else {
        panic!("expected array object");
    };
    let subarray = elements(state, subarray);

    assert_eq!(3, subarray.len());
    assert_eq!(Object::Integer(1), subarray[0]);
    assert_eq!(Object::Integer(2), subarray[1]);
    assert_eq!(Object::Integer(3), subarray[2]);

    let range_check_cases = [
        (Object::Integer(-1), Object::Integer(0)),
        (Object::Integer(0), Object::Integer(-1)),
        (Object::Integer(1000), Object::Integer(0)),
        (Object::Integer(0), Object::Integer(1000)),
    ];

    for (index, count) in range_check_cases {
        state.push(Object::Array(arr));
        state.push(index);
        state.push(count);
        assert!(getinterval(state).is_err_and(|e| e.kind() == ErrorKind::RangeCheck));
    }

    assert!(getinterval(state).is_err_and(|e| e.kind() == ErrorKind::StackUnderflow));
}

#[test]
fn composite_operators_test_putinterval() {
    let mut execution_state = ExecutionState::new();
    let state = &mut execution_state.interpreter;

    let arr = new_array(state, (0..5).map(Object::Integer).collect());
    let subarray = new_array(state, (5..8).map(Object::Integer).collect());

    state.push(Object::Array(arr));
    state.push(Object::Integer(1));
    state.push(Object::Array(subarray));

    assert!(putinterval(state).is_ok());
    assert_eq!(0, state.operand_stack.len());

    let values = elements(state, arr);
    assert_eq!(Object::Integer(0), values[0]);
    assert_eq!(Object::Integer(5), values[1]);
    assert_eq!(Object::Integer(6), values[2]);
    assert_eq!(Object::Integer(7), values[3]);
    assert_eq!(Object::Integer(4), values[4]);

    let range_check_cases = [Object::Integer(1000), Object::Integer(-1), Object::Integer(3)];

    for case in range_check_cases {
        state.push(Object::Array(arr));
        state.push(case);
        state.push(Object::Array(subarray));
        assert!(putinterval(state).is_err_and(|e| e.kind() == ErrorKind::RangeCheck));
        assert_eq!(values, elements(state, arr));
    }

    assert!(putinterval(state).is_err_and(|e| e.kind() == ErrorKind::StackUnderflow));
}

#[test]
fn composite_operators_test_astore() {
    let mut execution_state = ExecutionState::new();
    let state = &mut execution_state.interpreter;

    let arr = new_array(state, vec![Object::Null; 3]);

    state.push(Object::Integer(0));
    state.push(Object::Integer(1));
    state.push(Object::Integer(2));
    state.push(Object::Array(arr));

    assert!(astore(state).is_ok());
    assert_eq!(1, state.operand_stack.len());

    let values = elements(state, arr);
    assert_eq!(Object::Integer(0), values[0]);
    assert_eq!(Object::Integer(1), values[1]);
    assert_eq!(Object::Integer(2), values[2]);
}

#[test]
fn composite_operators_test_aload() {
    let mut execution_state = ExecutionState::new();
    let state = &mut execution_state.interpreter;

    let arr = new_array(state, (0..3).map(Object::Integer).collect());

    state.push(Object::Array(arr));

    assert!(aload(state).is_ok());
    assert_eq!(4, state.operand_stack.len());

    state.operand_stack.pop();
    let values = elements(state, arr);
    assert_eq!(Object::Integer(0), values[0]);
    assert_eq!(Object::Integer(1), values[1]);
    assert_eq!(Object::Integer(2), values[2]);

    assert_eq!(Some(Object::Integer(2)), state.operand_stack.pop());
    assert_eq!(Some(Object::Integer(1)), state.operand_stack.pop());
    assert_eq!(Some(Object::Integer(0)), state.operand_stack.pop());
}

#[test]
fn evaluator_system_dictionary_names() {
    let ev = Evaluator::default();
    let state = ev.state();
    assert_eq!(1, state.dict_stack.count());
    assert_eq!(
        Some(Procedure::System(SystemOperator::Dup)),
        state.find(&"dup".to_string())
    );
    assert_eq!(
        Some(Procedure::System(SystemOperator::StartArray)),
        state.find(&"[".to_string())
    );
    assert_eq!(
        Some(Procedure::System(SystemOperator::Mod)),
        state.find(&"mod".to_string())
    );
    assert_eq!(None, state.find(&"nothing".to_string()));
    assert!(ExecutionState::new().find(&"dup".to_string()).is_none());
}

#[test]
fn evaluator_dictionary_insert_replaces() {
    let mut d = Dictionary::new();
    let key = "pi".to_string();
    assert!(!d.contains_key(&key));
    d.insert(key.clone(), Procedure::Defined(Object::Integer(3)));
    assert_eq!(Some(&Procedure::Defined(Object::Integer(3))), d.get(&key));
    d.insert(key.clone(), Procedure::Defined(Object::Boolean(true)));
    assert_eq!(Some(&Procedure::Defined(Object::Boolean(true))), d.get(&key));
    assert!(d.contains_key(&key));
    assert_eq!(None, d.get(&"e".to_string()));
    let system = system_dictionary();
    assert_eq!(Some(&Procedure::System(SystemOperator::Aload)), system.get(&"aload".to_string()));
}

#[test]
fn evaluator_upper_dictionary_hides_lower() {
    let mut ev = Evaluator::default();
    let mut d = Dictionary::new();
    d.insert("dup".to_string(), Procedure::Defined(Object::Integer(42)));
    ev.state_mut().dict_stack.push(d);
    evaluate_text(&mut ev, "1 dup").unwrap();
    assert_eq!(vec![Object::Integer(1), Object::Integer(42)], stack(&ev));
}

#[test]
fn evaluator_tokens() {
    let mut ev = Evaluator::default();
    let cases = [
        Token::new(TokenKind::Integer, "5".to_string()),
        Token::new(TokenKind::Integer, "16#FF".to_string()),
        Token::new(TokenKind::Name, "true".to_string()),
        Token::new(TokenKind::Name, "false".to_string()),
    ];
    for token in &cases {
        assert!(matches!(ev.evaluate(token), Ok(Step::Done)));
    }
    assert_eq!(
        vec![
            Object::Integer(5),
            Object::Integer(255),
            Object::Boolean(true),
            Object::Boolean(false),
        ],
        stack(&ev)
    );

    match ev.evaluate(&Token::new(TokenKind::Integer, "99999999999".to_string())) {
        Ok(Step::ReadNumeric(text)) => assert_eq!("99999999999", text),
        other => panic!("unexpected {other:?}"),
    }
    match ev.evaluate(&Token::new(TokenKind::Real, "1.5e3".to_string())) {
        Ok(Step::ReadReal(text)) => assert_eq!("1.5e3", text),
        other => panic!("unexpected {other:?}"),
    }
    let err = ev.evaluate(&name_token("nothing")).unwrap_err();
    assert_eq!(ErrorKind::Undefined, err.kind());
    let err = ev.evaluate(&Token::new(TokenKind::StringHex, "7%".to_string())).unwrap_err();
    assert_eq!(ErrorKind::SyntaxError, err.kind());
    assert_eq!(4, stack(&ev).len());
}

#[test]
fn evaluator_refuses_what_would_panic() {
    let mut ev = Evaluator::default();
    assert!(ev.try_evaluate(&Token::new(TokenKind::StringLiteral, "s".to_string())).is_none());
    assert!(ev.try_evaluate(&Token::new(TokenKind::Integer, "1#5".to_string())).is_none());
    evaluate_text(&mut ev, "0 1").unwrap();
    assert!(ev.try_evaluate(&name_token("roll")).is_none());
    assert_eq!(vec![Object::Integer(0), Object::Integer(1)], stack(&ev));
    evaluate_text(&mut ev, "clear 3 1 roll").unwrap_err();
}

#[test]
fn evaluator_integer_arithmetic() {
    let mut ev = Evaluator::default();
    evaluate_text(&mut ev, "2 3 add 10 sub 4 mul").unwrap();
    assert_eq!(vec![Object::Integer(-20)], stack(&ev));
    evaluate_text(&mut ev, "abs").unwrap();
    assert_eq!(vec![Object::Integer(20)], stack(&ev));
    evaluate_text(&mut ev, "neg -7 abs").unwrap();
    assert_eq!(vec![Object::Integer(-20), Object::Integer(7)], stack(&ev));
    evaluate_text(&mut ev, "clear").unwrap();
    evaluate_text(&mut ev, "7 ceiling 7 floor 7 round 7 truncate").unwrap();
    assert_eq!(&[Object::Integer(7); 4], &stack(&ev)[stack(&ev).len() - 4..]);
}

#[test]
fn evaluator_hands_real_operands_to_the_caller() {
    let mut ev = Evaluator::default();
    evaluate_text(&mut ev, "2147483647 1").unwrap();
    match ev.try_evaluate(&name_token("add")) {
        Some(Ok(Step::RealOperator(SystemOperator::Add, operands))) => {
            assert_eq!(vec![Object::Integer(2147483647), Object::Integer(1)], operands);
        },
        other => panic!("unexpected {other:?}"),
    }
    // the operands are taken off the stack for the caller
    assert!(stack(&ev).is_empty());

    evaluate_text(&mut ev, "6 3").unwrap();
    match ev.try_evaluate(&name_token("div")) {
        Some(Ok(Step::RealOperator(SystemOperator::Div, operands))) => {
            assert_eq!(vec![Object::Integer(6), Object::Integer(3)], operands);
        },
        other => panic!("unexpected {other:?}"),
    }

    evaluate_text(&mut ev, "-2147483648").unwrap();
    match ev.try_evaluate(&name_token("neg")) {
        Some(Ok(Step::RealOperator(SystemOperator::Neg, operands))) => {
            assert_eq!(vec![Object::Integer(i32::MIN)], operands);
        },
        other => panic!("unexpected {other:?}"),
    }

    // reals only for the operators on reals
    evaluate_text(&mut ev, "1").unwrap();
    let err = ev.try_evaluate(&name_token("sqrt")).unwrap().unwrap_err();
    assert_eq!(ErrorKind::TypeCheck, err.kind());
    let err = ev.try_evaluate(&name_token("atan")).unwrap().unwrap_err();
    assert_eq!(ErrorKind::StackUnderflow, err.kind());
    evaluate_text(&mut ev, "true 2").unwrap();
    let err = ev.try_evaluate(&name_token("mul")).unwrap().unwrap_err();
    assert_eq!(ErrorKind::TypeCheck, err.kind());
    assert!(stack(&ev).is_empty());
}

#[test]
fn evaluator_dump_operand_stack() {
    let mut ev = Evaluator::default();
    evaluate_text(&mut ev, "1 2 3").unwrap();
    let dumped: Vec<Object> = ev.dump_operand_stack().into();
    assert_eq!(vec![Object::Integer(3), Object::Integer(2), Object::Integer(1)], dumped);
    assert!(stack(&ev).is_empty());
}

#[test]
fn evaluator_arrays_and_errors() {
    let mut ev = Evaluator::default();
    evaluate_text(&mut ev, "[ 1 2 3 ] dup length").unwrap();
    let s = stack(&ev);
    assert_eq!(Object::Integer(3), s[1]);
    let err = evaluate_text(&mut ev, "clear 1 0 idiv").unwrap_err();
    assert_eq!(ErrorKind::UndefinedResult, err.kind());
    let err = evaluate_text(&mut ev, "clear ]").unwrap_err();
    assert_eq!(ErrorKind::UnmatchedMark, err.kind());
}
