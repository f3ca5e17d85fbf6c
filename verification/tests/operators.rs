use lib::access::Access;
use lib::error::ErrorKind;
use lib::operators::{
    aload, arithmetic, array, astore, atan, clear, cleartomark, copy, count, counttomark, currentpacking, dup,
    endarray, exch, get, getinterval, i32_to_usize, idiv, imod, index, length, mark, packedarray,
    num_unary, put, putinterval, rand, roll, rrand, setpacking, sin, srand, usize_to_i32,
    Arithmetic, InterpreterState, Object, Unary, cos,
};

fn state_with(objs: &[Object]) -> InterpreterState {
    let mut state = InterpreterState::new();
    for obj in objs {
        state.push(*obj);
    }
    state
}

fn ints(values: &[i32]) -> Vec<Object> {
    values.iter().map(|v| Object::Integer(*v)).collect()
}

/// Builds an array from the objects with `[ ... ]`.
fn make_array(state: &mut InterpreterState, values: &[i32]) -> usize {
    state.push(Object::Mark);
    for v in values {
        state.push(Object::Integer(*v));
    }
    endarray(state).unwrap();
    match state.operand_stack.pop() {
        Some(Object::Array(idx)) => idx,
        _ => panic!("expected array object"),
    }
}

fn elems(state: &InterpreterState, idx: usize) -> Vec<Object> {
    state.arrays.get(idx).unwrap().inner.clone()
}

#[test]
fn stack_operators_test_dup() {
    let mut state = state_with(&ints(&[1]));
    dup(&mut state).unwrap();

    assert_eq!(2, state.operand_stack.len());
    assert_eq!(Some(Object::Integer(1)), state.operand_stack.pop());
    assert_eq!(Some(Object::Integer(1)), state.operand_stack.pop());
}

#[test]
fn stack_operators_test_exch() {
    let mut state = state_with(&ints(&[1, 2]));
    exch(&mut state).unwrap();

    assert_eq!(Some(Object::Integer(1)), state.operand_stack.pop());
    assert_eq!(Some(Object::Integer(2)), state.operand_stack.pop());
}

#[test]
fn test_exch_underflow() {
    for objs in [ints(&[1]), ints(&[])] {
        let mut state = state_with(&objs);
        let result = exch(&mut state);

        assert!(result.is_err());
        assert_eq!(ErrorKind::StackUnderflow, result.unwrap_err().kind());
    }
}

#[test]
fn test_copy_simple() {
    let mut state = state_with(&ints(&[1, 2, 3, 2]));
    copy(&mut state).unwrap();

    // Stack should be: 3 2 3 2 1 |
    assert_eq!(5, state.operand_stack.len());
    assert_eq!(Some(Object::Integer(3)), state.operand_stack.pop());
    assert_eq!(Some(Object::Integer(2)), state.operand_stack.pop());
    assert_eq!(Some(Object::Integer(3)), state.operand_stack.pop());
    assert_eq!(Some(Object::Integer(2)), state.operand_stack.pop());
    assert_eq!(Some(Object::Integer(1)), state.operand_stack.pop());
}

#[test]
fn test_copy_simple_underflow() {
    let mut state = InterpreterState::new();
    let result = copy(&mut state);

    assert!(result.is_err());
    assert_eq!(ErrorKind::StackUnderflow, result.unwrap_err().kind());
}

#[test]
fn test_copy_composite() {
    let mut state = InterpreterState::new();
    let src = make_array(&mut state, &[1, 2, 3]);
    let dst = make_array(&mut state, &[4, 5, 6]);
    state.push(Object::Array(src));
    state.push(Object::Array(dst));
    copy(&mut state).unwrap();

    // Stack should be: [ 1 2 3 ] |
    assert_eq!(1, state.operand_stack.len());
    let Some(Object::Array(arr_idx)) = state.operand_stack.pop() else {
        panic!("expected array object");
    };
    assert_eq!(ints(&[1, 2, 3]), elems(&state, arr_idx));
}

#[test]
fn test_copy_composite_rangecheck() {
    let mut state = InterpreterState::new();
    let src = make_array(&mut state, &[1, 2, 3]);
    let dst = make_array(&mut state, &[4, 5]);
    state.push(Object::Array(src));
    state.push(Object::Array(dst));
    let result = copy(&mut state);

    assert!(result.is_err());
    assert_eq!(ErrorKind::RangeCheck, result.unwrap_err().kind());
    // the elements that fit were copied
    assert_eq!(ints(&[1, 2]), elems(&state, dst));
}

#[test]
fn test_copy_composite_typecheck() {
    let mut state = InterpreterState::new();
    let dst = make_array(&mut state, &[1, 2, 3]);
    state.push(Object::Integer(1));
    state.push(Object::Array(dst));
    let result = copy(&mut state);

    assert!(result.is_err());
    assert_eq!(ErrorKind::TypeCheck, result.unwrap_err().kind());
}

#[test]
fn test_copy_composite_underflow() {
    let mut state = InterpreterState::new();
    let dst = make_array(&mut state, &[1, 2, 3]);
    state.push(Object::Array(dst));
    let result = copy(&mut state);

    assert!(result.is_err());
    assert_eq!(ErrorKind::StackUnderflow, result.unwrap_err().kind());
}

#[test]
fn stack_operators_test_roll() {
    let mut state = state_with(&ints(&[1, 2, 3, 3, 1]));
    roll(&mut state).unwrap();

    assert_eq!(3, state.operand_stack.len());
    assert_eq!(Some(Object::Integer(2)), state.operand_stack.pop());
    assert_eq!(Some(Object::Integer(1)), state.operand_stack.pop());
    assert_eq!(Some(Object::Integer(3)), state.operand_stack.pop());

    let mut state = state_with(&ints(&[1, 2, 3, 3, -1]));
    roll(&mut state).unwrap();

    assert_eq!(3, state.operand_stack.len());
    assert_eq!(Some(Object::Integer(1)), state.operand_stack.pop());
    assert_eq!(Some(Object::Integer(3)), state.operand_stack.pop());
    assert_eq!(Some(Object::Integer(2)), state.operand_stack.pop());
}

#[test]
fn test_roll_underflow() {
    let mut state = InterpreterState::new();
    let result = roll(&mut state);

    assert!(result.is_err());
    assert_eq!(ErrorKind::StackUnderflow, result.unwrap_err().kind());
}

#[test]
fn operators_roll_then_back_restores() {
    let mut state = state_with(&ints(&[7, 8, 9, 10, 4, 3]));
    roll(&mut state).unwrap();
    assert_eq!(ints(&[8, 9, 10, 7]), state.operand_stack);
    state.push(Object::Integer(4));
    state.push(Object::Integer(-3));
    roll(&mut state).unwrap();
    assert_eq!(ints(&[7, 8, 9, 10]), state.operand_stack);
}

#[test]
fn stack_operators_test_index() {
    let cases = [(0, 3), (1, 2), (2, 1)];

    for (n, expect) in cases {
        let mut state = state_with(&ints(&[1, 2, 3, n]));
        index(&mut state).unwrap();

        assert_eq!(Some(Object::Integer(expect)), state.operand_stack.pop());
    }
}

#[test]
fn test_index_rangecheck() {
    let mut state = state_with(&ints(&[1, 2, 3, 4]));
    let result = index(&mut state);

    assert!(result.is_err());
    assert_eq!(ErrorKind::RangeCheck, result.unwrap_err().kind());
}

#[test]
fn test_index_underflow() {
    let mut state = InterpreterState::new();
    let result = index(&mut state);

    assert!(result.is_err());
    assert_eq!(ErrorKind::StackUnderflow, result.unwrap_err().kind());
}

#[test]
fn stack_operators_test_mark() {
    let mut state = InterpreterState::new();
    mark(&mut state).unwrap();

    assert!(matches!(state.operand_stack.pop(), Some(Object::Mark)));
}

#[test]
fn stack_operators_test_clear() {
    let mut state = state_with(&ints(&[1, 2, 3]));
    clear(&mut state).unwrap();

    assert_eq!(0, state.operand_stack.len());
}

#[test]
fn stack_operators_test_count() {
    let cases = [(ints(&[]), 0), (ints(&[1, 2, 3]), 3)];

    for (objs, expect) in cases {
        let mut state = state_with(&objs);
        count(&mut state).unwrap();

        assert_eq!(Some(Object::Integer(expect)), state.operand_stack.pop());
    }
}

#[test]
fn test_counttomark() {
    let mut state = state_with(&[
        Object::Integer(1),
        Object::Mark,
        Object::Integer(2),
        Object::Integer(3),
    ]);
    counttomark(&mut state).unwrap();

    assert_eq!(Some(Object::Integer(2)), state.operand_stack.pop());
}

#[test]
fn test_counttomark_unmatchedmark() {
    let mut state = state_with(&ints(&[1, 2, 3]));
    let result = counttomark(&mut state);

    assert!(result.is_err());
    assert_eq!(ErrorKind::UnmatchedMark, result.unwrap_err().kind());
}

#[test]
fn stack_operators_test_cleartomark() {
    let mut state = state_with(&[
        Object::Integer(1),
        Object::Mark,
        Object::Integer(2),
        Object::Integer(3),
    ]);
    cleartomark(&mut state).unwrap();

    assert_eq!(1, state.operand_stack.len());
    assert_eq!(Some(Object::Integer(1)), state.operand_stack.pop());
}

#[test]
fn operators_cleartomark_without_mark_empties() {
    let mut state = state_with(&ints(&[1, 2]));
    let result = cleartomark(&mut state);
    assert_eq!(ErrorKind::UnmatchedMark, result.unwrap_err().kind());
    assert!(state.operand_stack.is_empty());
}

#[test]
fn operators_idiv_and_mod() {
    let mut state = state_with(&ints(&[-7, 2]));
    idiv(&mut state).unwrap();
    assert_eq!(Some(Object::Integer(-3)), state.operand_stack.pop());

    let mut state = state_with(&ints(&[-7, 2]));
    imod(&mut state).unwrap();
    assert_eq!(Some(Object::Integer(-1)), state.operand_stack.pop());

    let mut state = state_with(&ints(&[1, 0]));
    assert_eq!(ErrorKind::UndefinedResult, idiv(&mut state).unwrap_err().kind());
    let mut state = state_with(&ints(&[1, 0]));
    assert_eq!(ErrorKind::UndefinedResult, imod(&mut state).unwrap_err().kind());
    let mut state = state_with(&[Object::Integer(1), Object::Boolean(true)]);
    assert_eq!(ErrorKind::TypeCheck, idiv(&mut state).unwrap_err().kind());
}

#[test]
fn operators_rand_srand_rrand() {
    let mut state = state_with(&ints(&[5]));
    srand(&mut state).unwrap();
    rrand(&mut state).unwrap();
    assert_eq!(Some(Object::Integer(5)), state.operand_stack.pop());
    rand(&mut state).unwrap();
    // 1103515245 * (5 + 12345), wrapping, made non-negative
    let expected = 1103515245i32.wrapping_mul(5 + 12345).wrapping_abs();
    assert_eq!(Some(Object::Integer(expected)), state.operand_stack.pop());
}

#[test]
fn operators_packing_flag() {
    let mut state = state_with(&[Object::Boolean(true)]);
    setpacking(&mut state).unwrap();
    currentpacking(&mut state).unwrap();
    assert_eq!(Some(Object::Boolean(true)), state.operand_stack.pop());
    let mut state = state_with(&ints(&[1]));
    assert_eq!(ErrorKind::TypeCheck, setpacking(&mut state).unwrap_err().kind());
}

#[test]
fn composite_operators_test_array() {
    let mut state = InterpreterState::new();

    for num in 0..5 {
        state.push(Object::Integer(num));

        assert!(array(&mut state).is_ok());
        assert_eq!(1, state.operand_stack.len());

        let Some(Object::Array(arr)) = state.operand_stack.pop() else {
            panic!("expected array object");
        };

        assert_eq!(num as usize, elems(&state, arr).len());

        for obj in elems(&state, arr) {
            assert_eq!(Object::Null, obj);
        }
    }

    assert!(array(&mut state).is_err_and(|e| e.kind() == ErrorKind::StackUnderflow));

    state.push(Object::Integer(-1));
    assert!(array(&mut state).is_err_and(|e| e.kind() == ErrorKind::RangeCheck));
}

#[test]
fn operators_length_get_put() {
    let mut state = InterpreterState::new();
    let idx = make_array(&mut state, &[1, 2, 3]);

    state.push(Object::Array(idx));
    length(&mut state).unwrap();
    assert_eq!(Some(Object::Integer(3)), state.operand_stack.pop());

    state.push(Object::Array(idx));
    state.push(Object::Integer(1));
    get(&mut state).unwrap();
    assert_eq!(Some(Object::Integer(2)), state.operand_stack.pop());

    state.push(Object::Array(idx));
    state.push(Object::Integer(3));
    assert_eq!(ErrorKind::RangeCheck, get(&mut state).unwrap_err().kind());

    state.push(Object::Array(idx));
    state.push(Object::Integer(0));
    state.push(Object::Integer(9));
    put(&mut state).unwrap();
    assert_eq!(ints(&[9, 2, 3]), elems(&state, idx));
    assert!(state.operand_stack.is_empty());
}

#[test]
fn operators_packed_array_is_read_only() {
    let mut state = state_with(&ints(&[1, 7, 8, 2]));
    packedarray(&mut state).unwrap();
    let Some(Object::PackedArray(idx)) = state.operand_stack.pop() else {
        panic!("expected packed array");
    };
    assert_eq!(ints(&[1]), state.operand_stack);
    assert_eq!(ints(&[7, 8]), elems(&state, idx));
    assert_eq!(Access::ReadOnly, state.arrays.get(idx).unwrap().access);

    let mut short = state_with(&ints(&[5, 3]));
    assert_eq!(ErrorKind::StackUnderflow, packedarray(&mut short).unwrap_err().kind());
    assert_eq!(ints(&[5]), short.operand_stack);
    let mut none = state_with(&ints(&[0]));
    packedarray(&mut none).unwrap();
    let Some(Object::PackedArray(empty)) = none.operand_stack.pop() else {
        panic!("expected packed array");
    };
    assert!(elems(&none, empty).is_empty());
    state.operand_stack.clear();
    state.push(Object::PackedArray(idx));
    state.push(Object::Integer(0));
    state.push(Object::Integer(1));
    assert_eq!(ErrorKind::InvalidAccess, put(&mut state).unwrap_err().kind());
}

#[test]
fn operators_getinterval_putinterval() {
    let mut state = InterpreterState::new();
    let idx = make_array(&mut state, &[1, 2, 3, 4, 5]);

    state.push(Object::Array(idx));
    state.push(Object::Integer(1));
    state.push(Object::Integer(3));
    getinterval(&mut state).unwrap();
    let Some(Object::Array(sub)) = state.operand_stack.pop() else {
        panic!("expected array");
    };
    assert_eq!(ints(&[2, 3, 4]), elems(&state, sub));

    state.push(Object::Array(idx));
    state.push(Object::Integer(4));
    state.push(Object::Integer(2));
    assert_eq!(ErrorKind::RangeCheck, getinterval(&mut state).unwrap_err().kind());
    // the three operands are taken before any check
    assert!(state.operand_stack.is_empty());
    state.push(Object::Integer(0));
    state.push(Object::Integer(0));
    assert_eq!(ErrorKind::StackUnderflow, getinterval(&mut state).unwrap_err().kind());
    assert!(state.operand_stack.is_empty());
    state.push(Object::Integer(7));
    state.push(Object::Integer(0));
    state.push(Object::Integer(0));
    assert_eq!(ErrorKind::TypeCheck, getinterval(&mut state).unwrap_err().kind());
    assert!(state.operand_stack.is_empty());

    let src = make_array(&mut state, &[8, 9]);
    state.push(Object::Array(idx));
    state.push(Object::Integer(3));
    state.push(Object::Array(src));
    putinterval(&mut state).unwrap();
    assert_eq!(ints(&[1, 2, 3, 8, 9]), elems(&state, idx));

    state.push(Object::Array(idx));
    state.push(Object::Integer(4));
    state.push(Object::Array(src));
    assert_eq!(ErrorKind::RangeCheck, putinterval(&mut state).unwrap_err().kind());
    // an interval past the end is refused before anything is written
    assert_eq!(ints(&[1, 2, 3, 8, 9]), elems(&state, idx));
}

#[test]
fn operators_astore_aload() {
    let mut state = state_with(&ints(&[3]));
    array(&mut state).unwrap();
    let Some(Object::Array(idx)) = state.operand_stack.pop() else {
        panic!("expected array");
    };
    for v in [4, 5, 6] {
        state.push(Object::Integer(v));
    }
    state.push(Object::Array(idx));
    astore(&mut state).unwrap();
    assert_eq!(vec![Object::Array(idx)], state.operand_stack);
    assert_eq!(ints(&[4, 5, 6]), elems(&state, idx));

    aload(&mut state).unwrap();
    assert_eq!(
        vec![
            Object::Integer(4),
            Object::Integer(5),
            Object::Integer(6),
            Object::Array(idx)
        ],
        state.operand_stack
    );

    let mut short = state_with(&ints(&[1]));
    let two = make_array(&mut short, &[0, 0]);
    short.push(Object::Array(two));
    assert_eq!(ErrorKind::StackUnderflow, astore(&mut short).unwrap_err().kind());
    assert!(short.operand_stack.is_empty());
}

#[test]
fn operators_endarray_unmatched() {
    let mut state = state_with(&ints(&[1, 2]));
    assert_eq!(ErrorKind::UnmatchedMark, endarray(&mut state).unwrap_err().kind());
    assert!(state.operand_stack.is_empty());
}

#[test]
fn operators_conversions() {
    assert_eq!(5, i32_to_usize(5).unwrap());
    assert_eq!(ErrorKind::LimitCheck, i32_to_usize(-5).unwrap_err().kind());
    assert_eq!(7, usize_to_i32(7).unwrap());
    if usize::BITS > 32 {
        assert_eq!(
            ErrorKind::Unregistered,
            usize_to_i32(1usize << 40).unwrap_err().kind()
        );
    }
}

#[test]
fn operators_real_operands() {
    let one = 1.0f64.to_bits();
    let two = 2.0f64.to_bits();
    let mut state = state_with(&[Object::Real(one), Object::Real(two)]);
    assert_eq!(Some(vec![Object::Real(one), Object::Real(two)]), atan(&mut state).unwrap());
    assert!(state.operand_stack.is_empty());

    let mut state = state_with(&[Object::Real(one)]);
    assert_eq!(Some(vec![Object::Real(one)]), cos(&mut state).unwrap());
    let mut state = state_with(&[Object::Real(two)]);
    assert_eq!(Some(vec![Object::Real(two)]), sin(&mut state).unwrap());

    let mut state = state_with(&ints(&[1]));
    assert_eq!(ErrorKind::TypeCheck, sin(&mut state).unwrap_err().kind());
    assert!(state.operand_stack.is_empty());
    let mut state = state_with(&[Object::Real(one), Object::Integer(2)]);
    assert_eq!(ErrorKind::TypeCheck, atan(&mut state).unwrap_err().kind());
    assert_eq!(vec![Object::Real(one)], state.operand_stack);
    assert_eq!(ErrorKind::StackUnderflow, cos(&mut InterpreterState::new()).unwrap_err().kind());

    let mut state = state_with(&ints(&[2, 3]));
    assert_eq!(None, arithmetic(&mut state, Arithmetic::Mul).unwrap());
    assert_eq!(ints(&[6]), state.operand_stack);
    let mut state = state_with(&[Object::Integer(5), Object::Real(two)]);
    assert_eq!(
        Some(vec![Object::Integer(5), Object::Real(two)]),
        arithmetic(&mut state, Arithmetic::Add).unwrap()
    );
    let mut state = state_with(&ints(&[-5]));
    assert_eq!(None, num_unary(&mut state, Unary::Abs).unwrap());
    assert_eq!(ints(&[5]), state.operand_stack);
}
