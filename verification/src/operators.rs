use vstd::prelude::*;

use crate::access::Access;
use crate::container::Container;
use crate::error::{fails_with, Error, ErrorKind, Result};
use crate::rand::{lcg_next, RandomNumberGenerator};

verus! {

/// An object on the operand stack. Arrays are held by their address in the state's array
/// memory; a real is held by the bits of its IEEE-754 double.
#[derive(Clone, Copy, Debug, PartialEq, Eq, Structural)]
pub enum Object {
    Boolean(bool),
    Integer(i32),
    Real(u64),
    Mark,
    Null,
    Array(usize),
    PackedArray(usize),
}

/// An array value: its access, its declared length and its elements.
#[derive(Debug)]
pub struct Composite {
    pub access: Access,
    pub len: usize,
    pub inner: Vec<Object>,
}

impl Composite {
    pub fn is_exec_only(&self) -> (r: bool)
        ensures
            r <==> self.access == Access::ExecuteOnly,
    {
        self.access.is_exec_only()
    }

    pub fn is_read_only(&self) -> (r: bool)
        ensures
            r <==> self.access == Access::ReadOnly,
    {
        self.access.is_read_only()
    }

    pub fn is_readable(&self) -> (r: bool)
        ensures
            r <==> (self.access == Access::Unlimited || self.access == Access::ReadOnly),
    {
        self.access.is_readable()
    }

    pub fn is_writeable(&self) -> (r: bool)
        ensures
            r <==> self.access == Access::Unlimited,
    {
        self.access.is_writeable()
    }
}

/// What the operators work on: the operand stack (bottom first), the array memory, the
/// random number generator and the packing flag.
pub struct InterpreterState {
    pub operand_stack: Vec<Object>,
    pub arrays: Container<Composite>,
    pub rng: RandomNumberGenerator,
    pub is_packing: bool,
}

/// Whether `o` is the mark.
pub open spec fn is_mark(o: Object) -> bool {
    o is Mark
}

/// The number of objects above the topmost mark of `s`, if `s` holds a mark.
pub open spec fn objects_above_mark(s: Seq<Object>) -> Option<nat>
    decreases s.len(),
{
    if s.len() == 0 {
        None
    } else if is_mark(s.last()) {
        Some(0)
    } else {
        match objects_above_mark(s.drop_last()) {
            Some(k) => Some(k + 1),
            None => None,
        }
    }
}

/// `usize_to_i32`: a count as an integer object, if it fits.
pub open spec fn fits_i32(u: int) -> bool {
    u <= i32::MAX
}

impl InterpreterState {
    pub fn new() -> (r: Self)
        ensures
            r.operand_stack@ == Seq::<Object>::empty(),
            r.arrays@ == Seq::<Option<Composite>>::empty(),
            r.rng.spec_seed() == 0 && r.rng.spec_state() == 0,
            !r.is_packing,
    {
        InterpreterState {
            operand_stack: Vec::new(),
            arrays: Container::new(),
            rng: RandomNumberGenerator::new(),
            is_packing: false,
        }
    }

    pub fn push(&mut self, obj: Object)
        ensures
            final(self).operand_stack@ == old(self).operand_stack@.push(obj),
            final(self).arrays == old(self).arrays,
            final(self).rng == old(self).rng,
            final(self).is_packing == old(self).is_packing,
    {
        self.operand_stack.push(obj);
    }

    /// Takes the top object; `stackunderflow` on an empty stack.
    pub fn pop(&mut self) -> (r: Result<Object>)
        ensures
            old(self).operand_stack@.len() == 0 ==> fails_with(r, ErrorKind::StackUnderflow)
                && final(self).operand_stack@ == old(self).operand_stack@,
            old(self).operand_stack@.len() > 0 ==> r == Ok::<Object, Error>(
                old(self).operand_stack@.last(),
            ) && final(self).operand_stack@ == old(self).operand_stack@.drop_last(),
            final(self).arrays == old(self).arrays,
            final(self).rng == old(self).rng,
            final(self).is_packing == old(self).is_packing,
    {
        match self.operand_stack.pop() {
            Some(obj) => Ok(obj),
            None => Err(Error::from(ErrorKind::StackUnderflow)),
        }
    }

    /// Takes the top object as an integer; `typecheck` (the object taken) when it is none.
    pub fn pop_int(&mut self) -> (r: Result<i32>)
        ensures
            old(self).operand_stack@.len() == 0 ==> fails_with(r, ErrorKind::StackUnderflow)
                && final(self).operand_stack@ == old(self).operand_stack@,
            old(self).operand_stack@.len() > 0 ==> final(self).operand_stack@ == old(
                self,
            ).operand_stack@.drop_last() && match old(self).operand_stack@.last() {
                Object::Integer(i) => r == Ok::<i32, Error>(i),
                _ => fails_with(r, ErrorKind::TypeCheck),
            },
            final(self).arrays == old(self).arrays,
            final(self).rng == old(self).rng,
            final(self).is_packing == old(self).is_packing,
    {
        match self.pop()? {
            Object::Integer(i) => Ok(i),
            _ => Err(Error::new(ErrorKind::TypeCheck, "expected int")),
        }
    }

    /// Takes the top object as a non-negative integer; a negative one gives `rangecheck`.
    pub fn pop_usize(&mut self) -> (r: Result<usize>)
        ensures
            old(self).operand_stack@.len() == 0 ==> fails_with(r, ErrorKind::StackUnderflow)
                && final(self).operand_stack@ == old(self).operand_stack@,
            old(self).operand_stack@.len() > 0 ==> final(self).operand_stack@ == old(
                self,
            ).operand_stack@.drop_last() && match old(self).operand_stack@.last() {
                Object::Integer(i) => if i >= 0 {
                    r == Ok::<usize, Error>(i as usize)
                } else {
                    fails_with(r, ErrorKind::RangeCheck)
                },
                _ => fails_with(r, ErrorKind::TypeCheck),
            },
            final(self).arrays == old(self).arrays,
            final(self).rng == old(self).rng,
            final(self).is_packing == old(self).is_packing,
    {
        let i = self.pop_int()?;
        if i < 0 {
            return Err(Error::new(ErrorKind::RangeCheck, "expected a non-negative integer"));
        }
        Ok(i as usize)
    }

    /// Takes the top object as a real, given by the bits of its double; `typecheck` (the
    /// object taken) when it is none.
    pub fn pop_real(&mut self) -> (r: Result<u64>)
        ensures
            old(self).operand_stack@.len() == 0 ==> fails_with(r, ErrorKind::StackUnderflow)
                && final(self).operand_stack@ == old(self).operand_stack@,
            old(self).operand_stack@.len() > 0 ==> final(self).operand_stack@ == old(
                self,
            ).operand_stack@.drop_last() && match old(self).operand_stack@.last() {
                Object::Real(bits) => r == Ok::<u64, Error>(bits),
                _ => fails_with(r, ErrorKind::TypeCheck),
            },
            final(self).arrays == old(self).arrays,
            final(self).rng == old(self).rng,
            final(self).is_packing == old(self).is_packing,
    {
        match self.pop()? {
            Object::Real(bits) => Ok(bits),
            _ => Err(Error::new(ErrorKind::TypeCheck, "expected real")),
        }
    }

    /// Takes the top object as a boolean; `typecheck` (the object taken) when it is none.
    pub fn pop_bool(&mut self) -> (r: Result<bool>)
        ensures
            old(self).operand_stack@.len() == 0 ==> fails_with(r, ErrorKind::StackUnderflow)
                && final(self).operand_stack@ == old(self).operand_stack@,
            old(self).operand_stack@.len() > 0 ==> final(self).operand_stack@ == old(
                self,
            ).operand_stack@.drop_last() && match old(self).operand_stack@.last() {
                Object::Boolean(b) => r == Ok::<bool, Error>(b),
                _ => fails_with(r, ErrorKind::TypeCheck),
            },
            final(self).arrays == old(self).arrays,
            final(self).rng == old(self).rng,
            final(self).is_packing == old(self).is_packing,
    {
        match self.pop()? {
            Object::Boolean(b) => Ok(b),
            _ => Err(Error::new(ErrorKind::TypeCheck, "expected bool")),
        }
    }
}

/// `i32_to_usize`: a non-negative integer as an index; `limitcheck` for a negative one.
pub fn i32_to_usize(i: i32) -> (r: Result<usize>)
    ensures
        i >= 0 ==> r == Ok::<usize, Error>(i as usize),
        i < 0 ==> fails_with(r, ErrorKind::LimitCheck),
{
    if i >= 0 {
        Ok(i as usize)
    } else {
        Err(Error::from(ErrorKind::LimitCheck))
    }
}

/// `usize_to_i32`: a count as an integer; `unregistered` when it does not fit.
pub fn usize_to_i32(u: usize) -> (r: Result<i32>)
    ensures
        u <= i32::MAX ==> r == Ok::<i32, Error>(u as i32),
        u > i32::MAX ==> fails_with(r, ErrorKind::Unregistered),
{
    if u <= 2147483647usize {
        Ok(u as i32)
    } else {
        Err(Error::new(ErrorKind::Unregistered, "failed to convert usize to int"))
    }
}

/// Whether the object at `pos` is the mark.
fn mark_at(stack: &Vec<Object>, pos: usize) -> (r: bool)
    requires
        pos < stack@.len(),
    ensures
        r == is_mark(stack@[pos as int]),
{
    matches!(stack[pos], Object::Mark)
}

/// The state is unchanged but for its operand stack.
pub open spec fn same_but_stack(a: InterpreterState, b: InterpreterState) -> bool {
    &&& a.arrays == b.arrays
    &&& a.rng == b.rng
    &&& a.is_packing == b.is_packing
}

/// Below the top object: what is left after taking two objects off a stack.
proof fn lemma_two_below(s: Seq<Object>)
    ensures
        s.len() == 1 ==> s.drop_last() == Seq::<Object>::empty(),
        s.len() >= 2 ==> s.drop_last().drop_last() == s.subrange(0, s.len() - 2),
{
    if s.len() == 1 {
        assert(s.drop_last() =~= Seq::<Object>::empty());
    }
    if s.len() >= 2 {
        assert(s.drop_last().drop_last() =~= s.subrange(0, s.len() - 2));
    }
}

/// The outcome of `dup`: how `after` and the result `r` follow from `before`.
pub open spec fn dup_post(before: InterpreterState, after: InterpreterState, r: Result<()>) -> bool {
    &&& same_but_stack(after, before)
    &&& ({
        let s = before.operand_stack@;
        if s.len() == 0 {
            fails_with(r, ErrorKind::StackUnderflow) && after.operand_stack@ == s
        } else {
            r is Ok && after.operand_stack@ == s.push(s.last())
        }
    })
}

/// `dup`: pushes a copy of the top object.
pub fn dup(state: &mut InterpreterState) -> (r: Result<()>)
    ensures
        dup_post(*old(state), *final(state), r),
{
    let ghost s = state.operand_stack@;
    let obj = state.pop()?;
    state.push(obj);
    state.push(obj);
    assert(state.operand_stack@ =~= s.push(s.last()));
    Ok(())
}

/// The stack with its two top objects swapped.
pub open spec fn exchanged(s: Seq<Object>) -> Seq<Object> {
    s.subrange(0, s.len() - 2).push(s[s.len() - 1]).push(s[s.len() - 2])
}

/// `exch` twice leaves the stack as it was.
pub proof fn lemma_exch_twice(s: Seq<Object>)
    requires
        s.len() >= 2,
    ensures
        exchanged(exchanged(s)) == s,
{
    assert(exchanged(exchanged(s)) =~= s);
}

/// `mark` then `counttomark` counts nothing, and the objects pushed after a mark (none of
/// them a mark) are what `counttomark` counts.
pub proof fn lemma_counttomark_after_mark(s: Seq<Object>, t: Seq<Object>)
    requires
        forall|i: int| 0 <= i < t.len() ==> !is_mark(#[trigger] t[i]),
    ensures
        objects_above_mark(s.push(Object::Mark) + t) == Some(t.len()),
    decreases t.len(),
{
    if t.len() == 0 {
        assert(s.push(Object::Mark) + t =~= s.push(Object::Mark));
    } else {
        lemma_counttomark_after_mark(s, t.drop_last());
        assert((s.push(Object::Mark) + t).drop_last() =~= s.push(Object::Mark) + t.drop_last());
        assert(!is_mark(t[t.len() - 1]));
    }
}

/// `cleartomark` after a `mark` and some pushes (none a mark) restores the stack below
/// the mark.
pub proof fn lemma_cleartomark_after_mark(s: Seq<Object>, t: Seq<Object>)
    requires
        forall|i: int| 0 <= i < t.len() ==> !is_mark(#[trigger] t[i]),
    ensures
        ({
            let u = s.push(Object::Mark) + t;
            &&& objects_above_mark(u) == Some(t.len())
            &&& u.subrange(0, u.len() - t.len() - 1) == s
        }),
{
    lemma_counttomark_after_mark(s, t);
    let u = s.push(Object::Mark) + t;
    assert(u.subrange(0, u.len() - t.len() - 1) =~= s);
}

/// The outcome of `exch`: how `after` and the result `r` follow from `before`.
pub open spec fn exch_post(before: InterpreterState, after: InterpreterState, r: Result<()>) -> bool {
    &&& same_but_stack(after, before)
    &&& ({
        let s = before.operand_stack@;
        let n = s.len();
        if n == 0 {
            fails_with(r, ErrorKind::StackUnderflow) && after.operand_stack@ == s
        } else if n == 1 {
            fails_with(r, ErrorKind::StackUnderflow) && after.operand_stack@
                == Seq::<Object>::empty()
        } else {
            r is Ok && after.operand_stack@ == exchanged(s)
        }
    })
}

/// `exch`: swaps the two top objects.
pub fn exch(state: &mut InterpreterState) -> (r: Result<()>)
    ensures
        exch_post(*old(state), *final(state), r),
{
    let ghost s = state.operand_stack@;
    let first = state.pop()?;
    proof {
        lemma_two_below(s);
    }
    let second = state.pop()?;
    state.push(first);
    state.push(second);
    assert(state.operand_stack@ =~= exchanged(s));
    Ok(())
}

/// `exch` swaps the two top objects and nothing else: it succeeds on a stack of two or
/// more objects, keeps its depth, leaves every object below the top two where it was, and
/// puts the former top object second and the former second object on top.
pub proof fn lemma_exch_swaps_top_two(
    before: InterpreterState,
    after: InterpreterState,
    r: Result<()>,
)
    requires
        exch_post(before, after, r),
        before.operand_stack@.len() >= 2,
    ensures
        r is Ok,
        after.operand_stack@.len() == before.operand_stack@.len(),
        forall|i: int|
            0 <= i < before.operand_stack@.len() - 2 ==> #[trigger] after.operand_stack@[i]
                == before.operand_stack@[i],
        after.operand_stack@[before.operand_stack@.len() - 2] == before.operand_stack@[
            before.operand_stack@.len() - 1],
        after.operand_stack@[before.operand_stack@.len() - 1] == before.operand_stack@[
            before.operand_stack@.len() - 2],
{
}

/// The outcome of `index`: how `after` and the result `r` follow from `before`.
pub open spec fn index_post(before: InterpreterState, after: InterpreterState, r: Result<()>) -> bool {
    &&& same_but_stack(after, before)
    &&& ({
        let s = before.operand_stack@;
        let rest = s.drop_last();
        if s.len() == 0 {
            fails_with(r, ErrorKind::StackUnderflow) && after.operand_stack@ == s
        } else {
            match s.last() {
                Object::Integer(i) => if i < 0 {
                    fails_with(r, ErrorKind::RangeCheck) && after.operand_stack@ == rest
                } else if i >= rest.len() {
                    fails_with(r, ErrorKind::RangeCheck) && after.operand_stack@ == rest
                } else {
                    r is Ok && after.operand_stack@ == rest.push(
                        rest[rest.len() - 1 - i],
                    )
                },
                _ => fails_with(r, ErrorKind::TypeCheck) && after.operand_stack@ == rest,
            }
        }
    })
}

/// `index`: pushes a copy of the object `n` places below the top, `n` taken from the top.
pub fn index(state: &mut InterpreterState) -> (r: Result<()>)
    ensures
        index_post(*old(state), *final(state), r),
{
    let idx = state.pop_usize()?;
    if state.operand_stack.len() == 0 {
        return Err(Error::from(ErrorKind::RangeCheck));
    }
    let Some(idx) = (state.operand_stack.len() - 1).checked_sub(idx) else {
        return Err(Error::from(ErrorKind::RangeCheck));
    };
    let obj = state.operand_stack[idx];
    state.push(obj);
    Ok(())
}

/// The outcome of `mark`: how `after` and the result `r` follow from `before`.
pub open spec fn mark_post(before: InterpreterState, after: InterpreterState, r: Result<()>) -> bool {
    &&& same_but_stack(after, before)
    &&& r is Ok
    &&& after.operand_stack@ == before.operand_stack@.push(Object::Mark)
}

/// `mark`: pushes the mark.
pub fn mark(state: &mut InterpreterState) -> (r: Result<()>)
    ensures
        mark_post(*old(state), *final(state), r),
{
    state.push(Object::Mark);
    Ok(())
}

/// The outcome of `clear`: how `after` and the result `r` follow from `before`.
pub open spec fn clear_post(before: InterpreterState, after: InterpreterState, r: Result<()>) -> bool {
    &&& same_but_stack(after, before)
    &&& r is Ok
    &&& after.operand_stack@ == Seq::<Object>::empty()
}

/// `clear`: empties the operand stack.
pub fn clear(state: &mut InterpreterState) -> (r: Result<()>)
    ensures
        clear_post(*old(state), *final(state), r),
{
    state.operand_stack.clear();
    Ok(())
}

/// The outcome of `count`: how `after` and the result `r` follow from `before`.
pub open spec fn count_post(before: InterpreterState, after: InterpreterState, r: Result<()>) -> bool {
    &&& same_but_stack(after, before)
    &&& ({
        let s = before.operand_stack@;
        if s.len() <= i32::MAX {
            r is Ok && after.operand_stack@ == s.push(Object::Integer(s.len() as i32))
        } else {
            fails_with(r, ErrorKind::Unregistered) && after.operand_stack@ == s
        }
    })
}

/// `count`: pushes the number of objects on the stack.
pub fn count(state: &mut InterpreterState) -> (r: Result<()>)
    ensures
        count_post(*old(state), *final(state), r),
{
    let i = usize_to_i32(state.operand_stack.len())?;
    state.push(Object::Integer(i));
    Ok(())
}

/// The outcome of `counttomark`: how `after` and the result `r` follow from `before`.
pub open spec fn counttomark_post(before: InterpreterState, after: InterpreterState, r: Result<()>) -> bool {
    &&& same_but_stack(after, before)
    &&& ({
        let s = before.operand_stack@;
        match objects_above_mark(s) {
            None => fails_with(r, ErrorKind::UnmatchedMark) && after.operand_stack@ == s,
            Some(k) => if k <= i32::MAX {
                r is Ok && after.operand_stack@ == s.push(Object::Integer(k as i32))
            } else {
                fails_with(r, ErrorKind::Unregistered) && after.operand_stack@ == s
            },
        }
    })
}

/// `counttomark`: pushes the number of objects above the topmost mark.
pub fn counttomark(state: &mut InterpreterState) -> (r: Result<()>)
    ensures
        counttomark_post(*old(state), *final(state), r),
{
    let len = state.operand_stack.len();
    let mut u: usize = 0;
    assert(state.operand_stack@.subrange(0, len as int) =~= state.operand_stack@);
    while u < len && !mark_at(&state.operand_stack, len - 1 - u)
        invariant
            len == state.operand_stack@.len(),
            u <= len,
            objects_above_mark(state.operand_stack@) == match objects_above_mark(
                state.operand_stack@.subrange(0, len - u),
            ) {
                Some(k) => Some((k + u) as nat),
                None => None::<nat>,
            },
        decreases len - u,
    {
        proof {
            let t = state.operand_stack@.subrange(0, len - u);
            assert(t.drop_last() =~= state.operand_stack@.subrange(0, len - u - 1));
        }
        u = u + 1;
    }
    if u == len {
        proof {
            assert(state.operand_stack@.subrange(0, 0) =~= Seq::<Object>::empty());
        }
        return Err(Error::from(ErrorKind::UnmatchedMark));
    }
    let i = usize_to_i32(u)?;
    state.push(Object::Integer(i));
    Ok(())
}

/// The outcome of `cleartomark`: how `after` and the result `r` follow from `before`.
pub open spec fn cleartomark_post(before: InterpreterState, after: InterpreterState, r: Result<()>) -> bool {
    &&& same_but_stack(after, before)
    &&& ({
        let s = before.operand_stack@;
        match objects_above_mark(s) {
            None => fails_with(r, ErrorKind::UnmatchedMark) && after.operand_stack@
                == Seq::<Object>::empty(),
            Some(k) => r is Ok && after.operand_stack@ == s.subrange(
                0,
                s.len() - k - 1,
            ),
        }
    })
}

/// `cleartomark`: pops objects down to and including the topmost mark.
pub fn cleartomark(state: &mut InterpreterState) -> (r: Result<()>)
    ensures
        cleartomark_post(*old(state), *final(state), r),
{
    let ghost s = state.operand_stack@;
    loop
        invariant_except_break
            objects_above_mark(s) == match objects_above_mark(state.operand_stack@) {
                Some(k) => Some(k + (s.len() - state.operand_stack@.len()) as nat),
                None => None::<nat>,
            },
        invariant
            same_but_stack(*state, *old(state)),
            s == old(state).operand_stack@,
            state.operand_stack@.len() <= s.len(),
            state.operand_stack@ == s.subrange(0, state.operand_stack@.len() as int),
        ensures
            state.operand_stack@.len() < s.len(),
            objects_above_mark(s) == Some((s.len() - state.operand_stack@.len() - 1) as nat),
            state.operand_stack@ == s.subrange(0, state.operand_stack@.len() as int),
        decreases state.operand_stack@.len(),
    {
        let ghost before = state.operand_stack@;
        match state.pop() {
            Err(_) => {
                proof {
                    assert(state.operand_stack@ =~= Seq::<Object>::empty());
                    assert(objects_above_mark(state.operand_stack@) is None);
                }
                return Err(Error::from(ErrorKind::UnmatchedMark));
            },
            Ok(obj) => {
                proof {
                    assert(state.operand_stack@ =~= s.subrange(
                        0,
                        state.operand_stack@.len() as int,
                    ));
                }
                if matches!(obj, Object::Mark) {
                    break;
                }
            },
        }
    }
    assert(s.subrange(0, s.len() - (s.len() - state.operand_stack@.len() - 1) - 1)
        =~= state.operand_stack@);
    Ok(())
}

/// The outcome of `idiv`: how `after` and the result `r` follow from `before`.
pub open spec fn idiv_post(before: InterpreterState, after: InterpreterState, r: Result<()>) -> bool {
    &&& same_but_stack(after, before)
    &&& ({
        let s = before.operand_stack@;
        let n = s.len();
        if n == 0 {
            fails_with(r, ErrorKind::StackUnderflow) && after.operand_stack@ == s
        } else if !(s[n - 1] is Integer) {
            fails_with(r, ErrorKind::TypeCheck) && after.operand_stack@ == s.drop_last()
        } else if n == 1 {
            fails_with(r, ErrorKind::StackUnderflow) && after.operand_stack@
                == s.drop_last()
        } else if !(s[n - 2] is Integer) {
            fails_with(r, ErrorKind::TypeCheck) && after.operand_stack@ == s.subrange(
                0,
                n - 2,
            )
        } else {
            let rhs = s[n - 1]->Integer_0;
            let lhs = s[n - 2]->Integer_0;
            match lhs.checked_div(rhs) {
                Some(q) => r is Ok && after.operand_stack@ == s.subrange(0, n - 2).push(
                    Object::Integer(q),
                ),
                None => fails_with(r, ErrorKind::UndefinedResult) && after.operand_stack@
                    == s.subrange(0, n - 2),
            }
        }
    })
}

/// `idiv`: the quotient of two integers, truncated; `undefinedresult` for a zero divisor
/// or an overflowing quotient.
pub fn idiv(state: &mut InterpreterState) -> (r: Result<()>)
    ensures
        idiv_post(*old(state), *final(state), r),
{
    let ghost s = state.operand_stack@;
    let rhs = state.pop_int()?;
    proof {
        lemma_two_below(s);
    }
    let lhs = state.pop_int()?;
    let total = match lhs.checked_div(rhs) {
        Some(total) => total,
        None => {
            return Err(Error::from(ErrorKind::UndefinedResult));
        },
    };
    state.push(Object::Integer(total));
    assert(state.operand_stack@ =~= s.subrange(0, s.len() - 2).push(Object::Integer(total)));
    Ok(())
}

/// The outcome of `imod`: how `after` and the result `r` follow from `before`.
pub open spec fn imod_post(before: InterpreterState, after: InterpreterState, r: Result<()>) -> bool {
    &&& same_but_stack(after, before)
    &&& ({
        let s = before.operand_stack@;
        let n = s.len();
        if n == 0 {
            fails_with(r, ErrorKind::StackUnderflow) && after.operand_stack@ == s
        } else if !(s[n - 1] is Integer) {
            fails_with(r, ErrorKind::TypeCheck) && after.operand_stack@ == s.drop_last()
        } else if n == 1 {
            fails_with(r, ErrorKind::StackUnderflow) && after.operand_stack@
                == s.drop_last()
        } else if !(s[n - 2] is Integer) {
            fails_with(r, ErrorKind::TypeCheck) && after.operand_stack@ == s.subrange(
                0,
                n - 2,
            )
        } else {
            let rhs = s[n - 1]->Integer_0;
            let lhs = s[n - 2]->Integer_0;
            match lhs.checked_rem(rhs) {
                Some(q) => r is Ok && after.operand_stack@ == s.subrange(0, n - 2).push(
                    Object::Integer(q),
                ),
                None => fails_with(r, ErrorKind::UndefinedResult) && after.operand_stack@
                    == s.subrange(0, n - 2),
            }
        }
    })
}

/// `mod`: the remainder of two integers, with the sign of the dividend; `undefinedresult`
/// for a zero divisor.
pub fn imod(state: &mut InterpreterState) -> (r: Result<()>)
    ensures
        imod_post(*old(state), *final(state), r),
{
    let ghost s = state.operand_stack@;
    let rhs = state.pop_int()?;
    proof {
        lemma_two_below(s);
    }
    let lhs = state.pop_int()?;
    let total = match lhs.checked_rem(rhs) {
        Some(total) => total,
        None => {
            return Err(Error::from(ErrorKind::UndefinedResult));
        },
    };
    state.push(Object::Integer(total));
    assert(state.operand_stack@ =~= s.subrange(0, s.len() - 2).push(Object::Integer(total)));
    Ok(())
}

/// The outcome of `rand`: how `after` and the result `r` follow from `before`.
pub open spec fn rand_post(before: InterpreterState, after: InterpreterState, r: Result<()>) -> bool {
    &&& r is Ok
    &&& after.arrays == before.arrays
    &&& after.is_packing == before.is_packing
    &&& after.rng.spec_state() == lcg_next(before.rng.spec_state())
    &&& after.rng.spec_seed() == before.rng.spec_seed()
    &&& ({
        let x = lcg_next(before.rng.spec_state());
        after.operand_stack@ == before.operand_stack@.push(
            Object::Integer(if x < 0 {
                (0 - x) as i32
            } else {
                x
            }),
        )
    })
}

/// `rand`: pushes the generator's next number, made non-negative.
pub fn rand(state: &mut InterpreterState) -> (r: Result<()>)
    requires
        lcg_next(old(state).rng.spec_state()) != i32::MIN,
    ensures
        rand_post(*old(state), *final(state), r),
{
    let x = state.rng.rand();
    let n = if x < 0 {
        0 - x
    } else {
        x
    };
    state.push(Object::Integer(n));
    Ok(())
}

/// The outcome of `srand`: how `after` and the result `r` follow from `before`.
pub open spec fn srand_post(before: InterpreterState, after: InterpreterState, r: Result<()>) -> bool {
    &&& after.arrays == before.arrays
    &&& after.is_packing == before.is_packing
    &&& ({
        let s = before.operand_stack@;
        if s.len() == 0 {
            fails_with(r, ErrorKind::StackUnderflow) && after.operand_stack@ == s
                && after.rng == before.rng
        } else {
            after.operand_stack@ == s.drop_last() && match s.last() {
                Object::Integer(seed) => r is Ok && after.rng.spec_seed() == seed
                    && after.rng.spec_state() == seed,
                _ => fails_with(r, ErrorKind::TypeCheck) && after.rng == before.rng,
            }
        }
    })
}

/// `srand`: seeds the generator with the integer on top.
pub fn srand(state: &mut InterpreterState) -> (r: Result<()>)
    ensures
        srand_post(*old(state), *final(state), r),
{
    let seed = state.pop_int()?;
    state.rng.set_seed(seed);
    Ok(())
}

/// The outcome of `rrand`: how `after` and the result `r` follow from `before`.
pub open spec fn rrand_post(before: InterpreterState, after: InterpreterState, r: Result<()>) -> bool {
    &&& same_but_stack(after, before)
    &&& r is Ok
    &&& after.operand_stack@ == before.operand_stack@.push(
        Object::Integer(before.rng.spec_seed()),
    )
}

/// `rrand`: pushes the seed last set.
pub fn rrand(state: &mut InterpreterState) -> (r: Result<()>)
    ensures
        rrand_post(*old(state), *final(state), r),
{
    let seed = state.rng.seed();
    state.push(Object::Integer(seed));
    Ok(())
}

/// The outcome of `setpacking`: how `after` and the result `r` follow from `before`.
pub open spec fn setpacking_post(before: InterpreterState, after: InterpreterState, r: Result<()>) -> bool {
    &&& after.arrays == before.arrays
    &&& after.rng == before.rng
    &&& ({
        let s = before.operand_stack@;
        if s.len() == 0 {
            fails_with(r, ErrorKind::StackUnderflow) && after.operand_stack@ == s
                && after.is_packing == before.is_packing
        } else {
            after.operand_stack@ == s.drop_last() && match s.last() {
                Object::Boolean(b) => r is Ok && after.is_packing == b,
                _ => fails_with(r, ErrorKind::TypeCheck) && after.is_packing == before.is_packing,
            }
        }
    })
}

/// `setpacking`: sets the packing flag from the boolean on top.
pub fn setpacking(state: &mut InterpreterState) -> (r: Result<()>)
    ensures
        setpacking_post(*old(state), *final(state), r),
{
    let b = state.pop_bool()?;
    state.is_packing = b;
    Ok(())
}

/// The outcome of `currentpacking`: how `after` and the result `r` follow from `before`.
pub open spec fn currentpacking_post(before: InterpreterState, after: InterpreterState, r: Result<()>) -> bool {
    &&& same_but_stack(after, before)
    &&& r is Ok
    &&& after.operand_stack@ == before.operand_stack@.push(
        Object::Boolean(before.is_packing),
    )
}

/// `currentpacking`: pushes the packing flag.
pub fn currentpacking(state: &mut InterpreterState) -> (r: Result<()>)
    ensures
        currentpacking_post(*old(state), *final(state), r),
{
    let b = state.is_packing;
    state.push(Object::Boolean(b));
    Ok(())
}

/// The array stored under address `i`, if any.
pub open spec fn array_at(arrays: Seq<Option<Composite>>, i: usize) -> Option<Composite> {
    if i < arrays.len() {
        arrays[i as int]
    } else {
        None
    }
}

/// `after` is `before` with one more array: of access `access` and elements `elems`.
pub open spec fn appended(
    before: Seq<Option<Composite>>,
    after: Seq<Option<Composite>>,
    access: Access,
    elems: Seq<Object>,
) -> bool {
    &&& after.len() == before.len() + 1
    &&& after.drop_last() == before
    &&& after.last() is Some
    &&& after.last()->Some_0.access == access
    &&& after.last()->Some_0.len == elems.len()
    &&& after.last()->Some_0.inner@ == elems
}

/// `after` is `before` with the elements of the array under `i` replaced by `elems`.
pub open spec fn replaced(
    before: Seq<Option<Composite>>,
    after: Seq<Option<Composite>>,
    i: usize,
    elems: Seq<Object>,
) -> bool {
    &&& i < before.len()
    &&& before[i as int] is Some
    &&& after.len() == before.len()
    &&& forall|j: int| 0 <= j < before.len() && j != i ==> after[j] == before[j]
    &&& after[i as int] is Some
    &&& after[i as int]->Some_0.access == before[i as int]->Some_0.access
    &&& after[i as int]->Some_0.len == before[i as int]->Some_0.len
    &&& after[i as int]->Some_0.inner@ == elems
}

/// `d` with the elements from `at` on replaced by those of `src`.
pub open spec fn overwrite(d: Seq<Object>, at: int, src: Seq<Object>) -> Seq<Object> {
    Seq::new(d.len(), |p: int| if at <= p < at + src.len() { src[p - at] } else { d[p] })
}

/// The elements of `v` in reverse order.
fn reversed(v: &Vec<Object>) -> (r: Vec<Object>)
    ensures
        r@ == v@.reverse(),
{
    let mut r: Vec<Object> = Vec::with_capacity(v.len());
    let mut n: usize = v.len();
    while n > 0
        invariant
            n <= v@.len(),
            r@ == v@.subrange(n as int, v@.len() as int).reverse(),
        decreases n,
    {
        n = n - 1;
        r.push(v[n]);
        assert(r@ =~= v@.subrange(n as int, v@.len() as int).reverse());
    }
    assert(v@.subrange(0, v@.len() as int) =~= v@);
    r
}

/// A vector of `len` nulls.
fn nulls(len: usize) -> (r: Vec<Object>)
    ensures
        r@ == Seq::new(len as nat, |j: int| Object::Null),
{
    let mut v: Vec<Object> = Vec::with_capacity(len);
    let mut n: usize = 0;
    while n < len
        invariant
            n <= len,
            v@ == Seq::new(n as nat, |j: int| Object::Null),
        decreases len - n,
    {
        v.push(Object::Null);
        n = n + 1;
        assert(v@ =~= Seq::new(n as nat, |j: int| Object::Null));
    }
    v
}

/// A new array of `len` nulls and the given access; returns its address.
fn new_array(state: &mut InterpreterState, access: Access, inner: Vec<Object>) -> (r: usize)
    requires
        old(state).arrays@.len() < usize::MAX,
    ensures
        r == old(state).arrays@.len(),
        appended(old(state).arrays@, final(state).arrays@, access, inner@),
        final(state).operand_stack == old(state).operand_stack,
        final(state).rng == old(state).rng,
        final(state).is_packing == old(state).is_packing,
{
    let len = inner.len();
    let composite = Composite { access, len, inner };
    let idx = state.arrays.insert(composite);
    proof {
        assert(final(state).arrays@.drop_last() =~= old(state).arrays@);
    }
    idx
}

/// The stack popped by one, when it held something.
pub open spec fn popped(s: Seq<Object>) -> Seq<Object> {
    if s.len() == 0 {
        s
    } else {
        s.drop_last()
    }
}

/// What `pop_usize` gives for a stack `s`: the count, or the error it raises.
pub open spec fn usize_arg(s: Seq<Object>) -> core::result::Result<usize, ErrorKind> {
    if s.len() == 0 {
        Err(ErrorKind::StackUnderflow)
    } else {
        match s.last() {
            Object::Integer(i) => if i >= 0 {
                Ok(i as usize)
            } else {
                Err(ErrorKind::RangeCheck)
            },
            _ => Err(ErrorKind::TypeCheck),
        }
    }
}

/// `r` is the outcome `e` stands for: `Ok` for `Ok`, the same error kind for `Err`.
pub open spec fn outcome<T, U>(r: Result<T>, e: core::result::Result<U, ErrorKind>) -> bool {
    match e {
        Ok(_) => r is Ok,
        Err(k) => fails_with(r, k),
    }
}

/// The outcome of `array`: how `after` and the result `r` follow from `before`.
pub open spec fn array_post(before: InterpreterState, after: InterpreterState, r: Result<()>) -> bool {
    &&& after.rng == before.rng
    &&& after.is_packing == before.is_packing
    &&& ({
        let s = before.operand_stack@;
        match usize_arg(s) {
            Err(k) => fails_with(r, k) && after.operand_stack@ == popped(s)
                && after.arrays == before.arrays,
            Ok(len) => r is Ok && appended(
                before.arrays@,
                after.arrays@,
                Access::Unlimited,
                Seq::new(len as nat, |j: int| Object::Null),
            ) && after.operand_stack@ == s.drop_last().push(
                Object::Array(before.arrays@.len() as usize),
            ),
        }
    })
}

/// `array`: pushes a new array of as many nulls as the count on top.
pub fn array(state: &mut InterpreterState) -> (r: Result<()>)
    requires
        old(state).arrays@.len() < usize::MAX,
    ensures
        array_post(*old(state), *final(state), r),
{
    let len = state.pop_usize()?;
    let inner = nulls(len);
    let idx = new_array(state, Access::default(), inner);
    state.push(Object::Array(idx));
    Ok(())
}

/// The outcome of `packedarray`: how `after` and the result `r` follow from `before`.
pub open spec fn packedarray_post(before: InterpreterState, after: InterpreterState, r: Result<()>) -> bool {
    &&& after.rng == before.rng
    &&& after.is_packing == before.is_packing
    &&& ({
        let s = before.operand_stack@;
        match usize_arg(s) {
            Err(k) => fails_with(r, k) && after.operand_stack@ == popped(s)
                && after.arrays == before.arrays,
            Ok(len) => {
                let rest = s.drop_last();
                if rest.len() < len {
                    fails_with(r, ErrorKind::StackUnderflow) && after.operand_stack@ == rest
                        && after.arrays == before.arrays
                } else {
                    r is Ok && appended(
                        before.arrays@,
                        after.arrays@,
                        Access::ReadOnly,
                        rest.subrange(rest.len() - len, rest.len() as int),
                    ) && after.operand_stack@ == rest.subrange(0, rest.len() - len).push(
                        Object::PackedArray(before.arrays@.len() as usize),
                    )
                }
            },
        }
    })
}

/// `packedarray`: takes the count on top and as many objects below it, and pushes a new
/// read-only packed array holding those objects in stack order; too few objects give
/// `stackunderflow`, with the objects left on the stack.
pub fn packedarray(state: &mut InterpreterState) -> (r: Result<()>)
    requires
        old(state).arrays@.len() < usize::MAX,
    ensures
        packedarray_post(*old(state), *final(state), r),
{
    let len = state.pop_usize()?;
    let n = state.operand_stack.len();
    if n < len {
        return Err(Error::from(ErrorKind::StackUnderflow));
    }
    let ghost rest = state.operand_stack@;
    let start = n - len;
    let mut inner: Vec<Object> = Vec::with_capacity(len);
    let mut k: usize = start;
    while k < n
        invariant
            state.operand_stack@ == rest,
            n == rest.len(),
            start <= k <= n,
            inner@ == rest.subrange(start as int, k as int),
        decreases n - k,
    {
        inner.push(state.operand_stack[k]);
        k = k + 1;
        assert(inner@ =~= rest.subrange(start as int, k as int));
    }
    state.operand_stack.truncate(start);
    let idx = new_array(state, Access::ReadOnly, inner);
    state.push(Object::PackedArray(idx));
    Ok(())
}

/// The outcome of `endarray`: how `after` and the result `r` follow from `before`.
pub open spec fn endarray_post(before: InterpreterState, after: InterpreterState, r: Result<()>) -> bool {
    &&& after.rng == before.rng
    &&& after.is_packing == before.is_packing
    &&& ({
        let s = before.operand_stack@;
        match objects_above_mark(s) {
            None => fails_with(r, ErrorKind::UnmatchedMark) && after.operand_stack@
                == Seq::<Object>::empty() && after.arrays == before.arrays,
            Some(k) => r is Ok && appended(
                before.arrays@,
                after.arrays@,
                Access::Unlimited,
                s.subrange(s.len() - k, s.len() as int),
            ) && after.operand_stack@ == s.subrange(0, s.len() - k - 1).push(
                Object::Array(before.arrays@.len() as usize),
            ),
        }
    })
}

/// `]`: pops the objects above the topmost mark and the mark, and pushes a new array of
/// them in stack order.
pub fn endarray(state: &mut InterpreterState) -> (r: Result<()>)
    requires
        old(state).arrays@.len() < usize::MAX,
    ensures
        endarray_post(*old(state), *final(state), r),
{
    let ghost s = state.operand_stack@;
    let mut arr: Vec<Object> = Vec::new();
    loop
        invariant_except_break
            objects_above_mark(s) == match objects_above_mark(state.operand_stack@) {
                Some(k) => Some(k + (s.len() - state.operand_stack@.len()) as nat),
                None => None::<nat>,
            },
            arr@ == s.subrange(s.len() - arr@.len(), s.len() as int).reverse(),
            arr@.len() == s.len() - state.operand_stack@.len(),
        invariant
            same_but_stack(*state, *old(state)),
            s == old(state).operand_stack@,
            state.operand_stack@.len() <= s.len(),
            state.operand_stack@ == s.subrange(0, state.operand_stack@.len() as int),
        ensures
            state.operand_stack@.len() < s.len(),
            objects_above_mark(s) == Some((s.len() - state.operand_stack@.len() - 1) as nat),
            state.operand_stack@ == s.subrange(0, state.operand_stack@.len() as int),
            arr@ == s.subrange(state.operand_stack@.len() as int + 1, s.len() as int).reverse(),
        decreases state.operand_stack@.len(),
    {
        match state.pop() {
            Err(_) => {
                proof {
                    assert(state.operand_stack@ =~= Seq::<Object>::empty());
                    assert(objects_above_mark(state.operand_stack@) is None);
                }
                return Err(Error::from(ErrorKind::UnmatchedMark));
            },
            Ok(obj) => {
                proof {
                    assert(state.operand_stack@ =~= s.subrange(
                        0,
                        state.operand_stack@.len() as int,
                    ));
                }
                if matches!(obj, Object::Mark) {
                    break;
                }
                let ghost before = arr@;
                arr.push(obj);
                proof {
                    assert(arr@ =~= s.subrange(s.len() - arr@.len(), s.len() as int).reverse());
                }
            },
        }
    }
    let arr = reversed(&arr);
    proof {
        assert(arr@ =~= s.subrange(state.operand_stack@.len() as int + 1, s.len() as int));
        assert(s.subrange(0, s.len() - (s.len() - state.operand_stack@.len() - 1) - 1)
            =~= state.operand_stack@);
    }
    let idx = new_array(state, Access::default(), arr);
    state.push(Object::Array(idx));
    Ok(())
}

/// The address an array or packed array object refers to.
pub open spec fn array_ref(o: Object) -> Option<usize> {
    match o {
        Object::Array(i) => Some(i),
        Object::PackedArray(i) => Some(i),
        _ => None,
    }
}

/// Readable: unlimited or read-only access.
pub open spec fn readable(a: Access) -> bool {
    a == Access::Unlimited || a == Access::ReadOnly
}

/// The outcome of `length`: how `after` and the result `r` follow from `before`.
pub open spec fn length_post(before: InterpreterState, after: InterpreterState, r: Result<()>) -> bool {
    &&& same_but_stack(after, before)
    &&& ({
        let s = before.operand_stack@;
        let rest = popped(s);
        if s.len() == 0 {
            fails_with(r, ErrorKind::StackUnderflow) && after.operand_stack@ == s
        } else {
            match array_ref(s.last()) {
                None => fails_with(r, ErrorKind::TypeCheck) && after.operand_stack@ == rest,
                Some(i) => match array_at(before.arrays@, i) {
                    None => fails_with(r, ErrorKind::Undefined) && after.operand_stack@
                        == rest,
                    Some(a) => if !readable(a.access) {
                        fails_with(r, ErrorKind::InvalidAccess) && after.operand_stack@
                            == rest
                    } else if a.len > i32::MAX {
                        fails_with(r, ErrorKind::Unregistered) && after.operand_stack@
                            == rest
                    } else {
                        r is Ok && after.operand_stack@ == rest.push(
                            Object::Integer(a.len as i32),
                        )
                    },
                },
            }
        }
    })
}

/// `length`: pushes the declared length of the array on top.
pub fn length(state: &mut InterpreterState) -> (r: Result<()>)
    ensures
        length_post(*old(state), *final(state), r),
{
    let obj = state.pop()?;
    let len = match obj {
        Object::Array(idx) | Object::PackedArray(idx) => {
            let Some(arr) = state.arrays.get(idx) else {
                return Err(Error::from(ErrorKind::Undefined));
            };
            if !arr.is_readable() {
                return Err(Error::from(ErrorKind::InvalidAccess));
            }
            arr.len
        },
        _ => {
            return Err(Error::new(ErrorKind::TypeCheck, "expected array"));
        },
    };
    let i = usize_to_i32(len)?;
    state.push(Object::Integer(i));
    Ok(())
}

/// The outcome of `get`: how `after` and the result `r` follow from `before`.
pub open spec fn get_post(before: InterpreterState, after: InterpreterState, r: Result<()>) -> bool {
    &&& same_but_stack(after, before)
    &&& ({
        let s = before.operand_stack@;
        match usize_arg(s) {
            Err(k) => fails_with(r, k) && after.operand_stack@ == popped(s),
            Ok(index) => {
                let s1 = s.drop_last();
                if s1.len() == 0 {
                    fails_with(r, ErrorKind::StackUnderflow) && after.operand_stack@ == s1
                } else {
                    let rest = s1.drop_last();
                    match array_ref(s1.last()) {
                        None => fails_with(r, ErrorKind::TypeCheck)
                            && after.operand_stack@ == rest,
                        Some(i) => match array_at(before.arrays@, i) {
                            None => fails_with(r, ErrorKind::Undefined)
                                && after.operand_stack@ == rest,
                            Some(a) => if a.access == Access::ExecuteOnly {
                                fails_with(r, ErrorKind::InvalidAccess)
                                    && after.operand_stack@ == rest
                            } else if index >= a.inner@.len() {
                                fails_with(r, ErrorKind::RangeCheck)
                                    && after.operand_stack@ == rest
                            } else {
                                r is Ok && after.operand_stack@ == rest.push(
                                    a.inner@[index as int],
                                )
                            },
                        },
                    }
                }
            },
        }
    })
}

/// `get`: pushes the element of an array at an index, both taken from the stack.
pub fn get(state: &mut InterpreterState) -> (r: Result<()>)
    ensures
        get_post(*old(state), *final(state), r),
{
    let index = state.pop_usize()?;
    let obj = state.pop()?;
    let found = match obj {
        Object::Array(idx) | Object::PackedArray(idx) => {
            let Some(arr) = state.arrays.get(idx) else {
                return Err(Error::from(ErrorKind::Undefined));
            };
            if arr.is_exec_only() {
                return Err(Error::from(ErrorKind::InvalidAccess));
            }
            if index >= arr.inner.len() {
                return Err(Error::from(ErrorKind::RangeCheck));
            }
            arr.inner[index]
        },
        _ => {
            return Err(Error::new(ErrorKind::TypeCheck, "expected array"));
        },
    };
    state.push(found);
    Ok(())
}

/// The outcome of `put`: how `after` and the result `r` follow from `before`.
pub open spec fn put_post(before: InterpreterState, after: InterpreterState, r: Result<()>) -> bool {
    &&& after.rng == before.rng
    &&& after.is_packing == before.is_packing
    &&& ({
        let s = before.operand_stack@;
        let arrays = before.arrays@;
        if s.len() == 0 {
            fails_with(r, ErrorKind::StackUnderflow) && after.operand_stack@ == s
                && after.arrays == before.arrays
        } else {
            let value = s.last();
            let s1 = s.drop_last();
            match usize_arg(s1) {
                Err(k) => fails_with(r, k) && after.operand_stack@ == popped(s1)
                    && after.arrays == before.arrays,
                Ok(index) => {
                    let s2 = s1.drop_last();
                    let rest = popped(s2);
                    after.operand_stack@ == rest && if s2.len() == 0 {
                        fails_with(r, ErrorKind::StackUnderflow) && after.arrays
                            == before.arrays
                    } else {
                        match array_ref(s2.last()) {
                            None => fails_with(r, ErrorKind::TypeCheck) && after.arrays
                                == before.arrays,
                            Some(i) => match array_at(arrays, i) {
                                None => fails_with(r, ErrorKind::Undefined)
                                    && after.arrays == before.arrays,
                                Some(a) => if a.access != Access::Unlimited {
                                    fails_with(r, ErrorKind::InvalidAccess)
                                        && after.arrays == before.arrays
                                } else if index >= a.inner@.len() {
                                    fails_with(r, ErrorKind::RangeCheck) && after.arrays
                                        == before.arrays
                                } else {
                                    r is Ok && replaced(
                                        arrays,
                                        after.arrays@,
                                        i,
                                        a.inner@.update(index as int, value),
                                    )
                                },
                            },
                        }
                    }
                },
            }
        }
    })
}

/// `put`: stores a value into an array at an index; the value, the index and the array
/// are taken from the stack.
pub fn put(state: &mut InterpreterState) -> (r: Result<()>)
    ensures
        put_post(*old(state), *final(state), r),
{
    let value = state.pop()?;
    let index = state.pop_usize()?;
    let obj = state.pop()?;
    let idx = match obj {
        Object::Array(idx) | Object::PackedArray(idx) => idx,
        _ => {
            return Err(Error::new(ErrorKind::TypeCheck, "expected array"));
        },
    };
    let ghost arrays = state.arrays@;
    let Some(arr) = state.arrays.get(idx) else {
        return Err(Error::from(ErrorKind::Undefined));
    };
    if !arr.is_writeable() {
        return Err(Error::from(ErrorKind::InvalidAccess));
    }
    if index >= arr.inner.len() {
        return Err(Error::from(ErrorKind::RangeCheck));
    }
    if let Some(arr) = state.arrays.get_mut(idx) {
        arr.inner.set(index, value);
    }
    proof {
        assert forall|j: int| 0 <= j < arrays.len() && j != idx implies state.arrays@[j]
            == arrays[j] by {}
    }
    Ok(())
}

/// The outcome of `aload`: how `after` and the result `r` follow from `before`.
pub open spec fn aload_post(before: InterpreterState, after: InterpreterState, r: Result<()>) -> bool {
    &&& same_but_stack(after, before)
    &&& ({
        let s = before.operand_stack@;
        let rest = popped(s);
        if s.len() == 0 {
            fails_with(r, ErrorKind::StackUnderflow) && after.operand_stack@ == s
        } else {
            match array_ref(s.last()) {
                None => fails_with(r, ErrorKind::TypeCheck) && after.operand_stack@ == rest,
                Some(i) => match array_at(before.arrays@, i) {
                    None => fails_with(r, ErrorKind::Undefined) && after.operand_stack@
                        == rest,
                    Some(a) => if !readable(a.access) {
                        fails_with(r, ErrorKind::InvalidAccess) && after.operand_stack@
                            == rest
                    } else {
                        r is Ok && after.operand_stack@ == (rest + a.inner@).push(
                            Object::Array(i),
                        )
                    },
                },
            }
        }
    })
}

/// `aload`: pushes the elements of the array on top, then an array object for it.
pub fn aload(state: &mut InterpreterState) -> (r: Result<()>)
    ensures
        aload_post(*old(state), *final(state), r),
{
    let obj = state.pop()?;
    let idx = match obj {
        Object::Array(idx) | Object::PackedArray(idx) => idx,
        _ => {
            return Err(Error::new(ErrorKind::TypeCheck, "expected array"));
        },
    };
    let Some(arr) = state.arrays.get(idx) else {
        return Err(Error::from(ErrorKind::Undefined));
    };
    if !arr.is_readable() {
        return Err(Error::from(ErrorKind::InvalidAccess));
    }
    let elems = copy_elems(&arr.inner);
    let ghost rest = state.operand_stack@;
    let mut n: usize = 0;
    while n < elems.len()
        invariant
            same_but_stack(*state, *old(state)),
            n <= elems@.len(),
            state.operand_stack@ == rest + elems@.subrange(0, n as int),
        decreases elems@.len() - n,
    {
        state.push(elems[n]);
        n = n + 1;
        assert(state.operand_stack@ =~= rest + elems@.subrange(0, n as int));
    }
    assert(elems@.subrange(0, elems@.len() as int) =~= elems@);
    state.push(Object::Array(idx));
    Ok(())
}

/// A copy of the elements of `v`.
fn copy_elems(v: &Vec<Object>) -> (r: Vec<Object>)
    ensures
        r@ == v@,
{
    let mut r: Vec<Object> = Vec::with_capacity(v.len());
    let mut n: usize = 0;
    while n < v.len()
        invariant
            n <= v@.len(),
            r@ == v@.subrange(0, n as int),
        decreases v@.len() - n,
    {
        r.push(v[n]);
        n = n + 1;
        assert(r@ =~= v@.subrange(0, n as int));
    }
    assert(v@.subrange(0, v@.len() as int) =~= v@);
    r
}

/// How many elements of a source of `n` elements fit in a destination of `d` elements
/// from `at` on.
pub open spec fn fitting(at: int, n: int, d: int) -> int {
    if at + n <= d {
        n
    } else if at <= d {
        d - at
    } else {
        0
    }
}

/// Writes the elements of `src` over those of `dst` from `at` on, as far as `dst` reaches;
/// returns whether all of `src` fitted.
fn write_elems(dst: &mut Vec<Object>, at: usize, src: &Vec<Object>) -> (r: bool)
    ensures
        final(dst)@ == overwrite(
            old(dst)@,
            at as int,
            src@.take(fitting(at as int, src@.len() as int, old(dst)@.len() as int)),
        ),
        r == (src@.len() == 0 || at + src@.len() <= old(dst)@.len()),
{
    let ghost d0 = dst@;
    let mut offset: usize = 0;
    while offset < src.len()
        invariant
            offset <= src@.len(),
            d0 == old(dst)@,
            dst@.len() == d0.len(),
            at as int + offset <= d0.len() || offset == 0,
            dst@ == overwrite(d0, at as int, src@.take(offset as int)),
        decreases src@.len() - offset,
    {
        if at >= dst.len() || offset >= dst.len() - at {
            proof {
                assert(at + offset >= d0.len());
                assert(at + src@.len() > d0.len());
                if offset > 0 {
                    assert(offset == d0.len() - at);
                } else {
                    assert(fitting(at as int, src@.len() as int, d0.len() as int) == 0);
                }
                assert(src@.take(offset as int) =~= src@.take(
                    fitting(at as int, src@.len() as int, d0.len() as int),
                ));
            }
            return false;
        }
        dst.set(at + offset, src[offset]);
        offset = offset + 1;
        assert(dst@ =~= overwrite(d0, at as int, src@.take(offset as int)));
    }
    proof {
        assert(src@.take(offset as int) =~= src@);
        if src@.len() > 0 {
            assert(at + src@.len() <= d0.len());
        } else {
            assert(dst@ =~= overwrite(d0, at as int, src@.take(0)));
        }
    }
    true
}

/// The outcome of `getinterval`: how `after` and the result `r` follow from `before`.
/// The array, the index and the count are all taken off the stack before any check.
pub open spec fn getinterval_post(before: InterpreterState, after: InterpreterState, r: Result<()>) -> bool {
    &&& after.rng == before.rng
    &&& after.is_packing == before.is_packing
    &&& ({
        let s = before.operand_stack@;
        let arrays = before.arrays@;
        let n = s.len();
        if n < 3 {
            fails_with(r, ErrorKind::StackUnderflow) && after.operand_stack@
                == Seq::<Object>::empty() && after.arrays == before.arrays
        } else {
            let rest = s.subrange(0, n - 3);
            let arr = s[n - 3];
            let idx = s[n - 2];
            let cnt = s[n - 1];
            if array_ref(arr) is None || !(idx is Integer) || !(cnt is Integer) {
                fails_with(r, ErrorKind::TypeCheck) && after.operand_stack@ == rest
                    && after.arrays == before.arrays
            } else {
                let index = idx->Integer_0;
                let count = cnt->Integer_0;
                if index < 0 || count < 0 {
                    fails_with(r, ErrorKind::RangeCheck) && after.operand_stack@ == rest
                        && after.arrays == before.arrays
                } else {
                    match array_at(arrays, array_ref(arr).unwrap()) {
                        None => fails_with(r, ErrorKind::Undefined) && after.operand_stack@
                            == rest && after.arrays == before.arrays,
                        Some(a) => if !readable(a.access) {
                            fails_with(r, ErrorKind::InvalidAccess) && after.operand_stack@
                                == rest && after.arrays == before.arrays
                        } else if index >= a.inner@.len() || index + count > a.inner@.len() {
                            fails_with(r, ErrorKind::RangeCheck) && after.operand_stack@
                                == rest && after.arrays == before.arrays
                        } else {
                            r is Ok && appended(
                                arrays,
                                after.arrays@,
                                Access::Unlimited,
                                a.inner@.subrange(index as int, index + count),
                            ) && after.operand_stack@ == rest.push(
                                Object::Array(arrays.len() as usize),
                            )
                        },
                    }
                }
            }
        }
    })
}

/// `getinterval`: pushes a new array holding `count` elements of an array from `index` on;
/// the array, the index and the count are taken from the stack.
pub fn getinterval(state: &mut InterpreterState) -> (r: Result<()>)
    requires
        old(state).arrays@.len() < usize::MAX,
    ensures
        getinterval_post(*old(state), *final(state), r),
{
    let ghost s = state.operand_stack@;
    let n = state.operand_stack.len();
    if n < 3 {
        state.operand_stack.clear();
        return Err(Error::from(ErrorKind::StackUnderflow));
    }
    let arr_obj = state.operand_stack[n - 3];
    let index_obj = state.operand_stack[n - 2];
    let count_obj = state.operand_stack[n - 1];
    state.operand_stack.truncate(n - 3);
    assert(state.operand_stack@ =~= s.subrange(0, n - 3));
    let idx = match arr_obj {
        Object::Array(idx) | Object::PackedArray(idx) => idx,
        _ => {
            return Err(Error::new(ErrorKind::TypeCheck, "expected array"));
        },
    };
    let (index, count) = match (index_obj, count_obj) {
        (Object::Integer(index), Object::Integer(count)) => (index, count),
        _ => {
            return Err(Error::new(ErrorKind::TypeCheck, "expected int"));
        },
    };
    if index < 0 || count < 0 {
        return Err(Error::from(ErrorKind::RangeCheck));
    }
    let index = index as usize;
    let count = count as usize;
    let src = {
        let Some(arr) = state.arrays.get(idx) else {
            return Err(Error::from(ErrorKind::Undefined));
        };
        if !arr.is_readable() {
            return Err(Error::from(ErrorKind::InvalidAccess));
        }
        copy_elems(&arr.inner)
    };
    if index >= src.len() || count > src.len() - index {
        return Err(Error::from(ErrorKind::RangeCheck));
    }
    let mut subarr: Vec<Object> = Vec::new();
    let mut i: usize = index;
    let end = index + count;
    while i < end
        invariant
            end == index + count,
            index < src@.len(),
            index <= i <= index + count,
            i <= src@.len(),
            index + count <= src@.len(),
            subarr@ == src@.subrange(index as int, i as int),
        decreases index + count - i,
    {
        subarr.push(src[i]);
        i = i + 1;
        assert(subarr@ =~= src@.subrange(index as int, i as int));
    }
    let idx = new_array(state, Access::default(), subarr);
    state.push(Object::Array(idx));
    Ok(())
}

/// The outcome of `putinterval`: how `after` and the result `r` follow from `before`.
pub open spec fn putinterval_post(before: InterpreterState, after: InterpreterState, r: Result<()>) -> bool {
    &&& after.rng == before.rng
    &&& after.is_packing == before.is_packing
    &&& ({
        let s = before.operand_stack@;
        let arrays = before.arrays@;
        let rest0 = popped(s);
        if s.len() == 0 {
            fails_with(r, ErrorKind::StackUnderflow) && after.operand_stack@ == s
                && after.arrays == before.arrays
        } else {
            match array_ref(s.last()) {
                None => fails_with(r, ErrorKind::TypeCheck) && after.operand_stack@
                    == rest0 && after.arrays == before.arrays,
                Some(si) => match array_at(arrays, si) {
                    None => fails_with(r, ErrorKind::Undefined) && after.operand_stack@
                        == rest0 && after.arrays == before.arrays,
                    Some(src) => if !readable(src.access) {
                        fails_with(r, ErrorKind::InvalidAccess) && after.operand_stack@
                            == rest0 && after.arrays == before.arrays
                    } else {
                        match usize_arg(rest0) {
                            Err(k) => fails_with(r, k) && after.operand_stack@ == popped(
                                rest0,
                            ) && after.arrays == before.arrays,
                            Ok(index) => {
                                let s2 = rest0.drop_last();
                                let rest = popped(s2);
                                after.operand_stack@ == rest && if s2.len() == 0 {
                                    fails_with(r, ErrorKind::StackUnderflow)
                                        && after.arrays == before.arrays
                                } else {
                                    match array_ref(s2.last()) {
                                        None => fails_with(r, ErrorKind::TypeCheck)
                                            && after.arrays == before.arrays,
                                        Some(di) => match array_at(arrays, di) {
                                            None => fails_with(r, ErrorKind::Undefined)
                                                && after.arrays == before.arrays,
                                            Some(d) => if d.access != Access::Unlimited {
                                                fails_with(r, ErrorKind::InvalidAccess)
                                                    && after.arrays == before.arrays
                                            } else {
                                                if index + src.inner@.len() <= d.inner@.len() {
                                                    r is Ok && replaced(
                                                        arrays,
                                                        after.arrays@,
                                                        di,
                                                        overwrite(
                                                            d.inner@,
                                                            index as int,
                                                            src.inner@,
                                                        ),
                                                    )
                                                } else {
                                                    fails_with(r, ErrorKind::RangeCheck)
                                                        && after.arrays == before.arrays
                                                }
                                            },
                                        },
                                    }
                                }
                            },
                        }
                    },
                },
            }
        }
    })
}

/// `putinterval`: writes the elements of a source array into a destination array from
/// an index on; the destination, the index and the source are taken from the stack.
/// An interval that runs past the end of the destination is a `rangecheck`, and nothing
/// is written.
pub fn putinterval(state: &mut InterpreterState) -> (r: Result<()>)
    ensures
        putinterval_post(*old(state), *final(state), r),
{
    let obj = state.pop()?;
    let source = match obj {
        Object::Array(idx) | Object::PackedArray(idx) => {
            let Some(arr) = state.arrays.get(idx) else {
                return Err(Error::from(ErrorKind::Undefined));
            };
            if !arr.is_readable() {
                return Err(Error::from(ErrorKind::InvalidAccess));
            }
            copy_elems(&arr.inner)
        },
        _ => {
            return Err(Error::new(ErrorKind::TypeCheck, "expected array"));
        },
    };
    let index = state.pop_usize()?;
    let obj = state.pop()?;
    let di = match obj {
        Object::Array(idx) | Object::PackedArray(idx) => idx,
        _ => {
            return Err(Error::new(ErrorKind::TypeCheck, "expected array"));
        },
    };
    let ghost arrays = state.arrays@;
    let Some(dest) = state.arrays.get(di) else {
        return Err(Error::from(ErrorKind::Undefined));
    };
    if !dest.is_writeable() {
        return Err(Error::from(ErrorKind::InvalidAccess));
    }
    if index > dest.inner.len() || source.len() > dest.inner.len() - index {
        return Err(Error::from(ErrorKind::RangeCheck));
    }
    if let Some(dest) = state.arrays.get_mut(di) {
        write_elems(&mut dest.inner, index, &source);
        assert(source@.take(source@.len() as int) =~= source@);
    }
    proof {
        assert forall|j: int| 0 <= j < arrays.len() && j != di implies state.arrays@[j]
            == arrays[j] by {}
    }
    Ok(())
}

/// The outcome of `astore`: how `after` and the result `r` follow from `before`.
pub open spec fn astore_post(before: InterpreterState, after: InterpreterState, r: Result<()>) -> bool {
    &&& after.rng == before.rng
    &&& after.is_packing == before.is_packing
    &&& ({
        let s = before.operand_stack@;
        let arrays = before.arrays@;
        let rest = popped(s);
        if s.len() == 0 {
            fails_with(r, ErrorKind::StackUnderflow) && after.operand_stack@ == s
                && after.arrays == before.arrays
        } else {
            match s.last() {
                Object::Array(i) => match array_at(arrays, i) {
                    None => fails_with(r, ErrorKind::Undefined) && after.operand_stack@
                        == rest && after.arrays == before.arrays,
                    Some(a) => if a.access != Access::Unlimited {
                        fails_with(r, ErrorKind::InvalidAccess) && after.operand_stack@
                            == rest && after.arrays == before.arrays
                    } else if rest.len() < a.len {
                        fails_with(r, ErrorKind::StackUnderflow) && after.operand_stack@
                            == Seq::<Object>::empty() && after.arrays == before.arrays
                    } else {
                        r is Ok && after.operand_stack@ == rest.subrange(
                            0,
                            rest.len() - a.len,
                        ).push(Object::Array(i)) && replaced(
                            arrays,
                            after.arrays@,
                            i,
                            rest.subrange(rest.len() - a.len, rest.len() as int),
                        )
                    },
                },
                _ => fails_with(r, ErrorKind::TypeCheck) && after.operand_stack@ == rest
                    && after.arrays == before.arrays,
            }
        }
    })
}

/// `astore`: pops as many objects as the array on top has elements, stores them in it,
/// the topmost last, and pushes the array back. Too few objects give `stackunderflow`
/// with the stack emptied.
pub fn astore(state: &mut InterpreterState) -> (r: Result<()>)
    ensures
        astore_post(*old(state), *final(state), r),
{
    let obj = state.pop()?;
    let Object::Array(arr_idx) = obj else {
        return Err(Error::new(ErrorKind::TypeCheck, "expected array"));
    };
    let len = match state.arrays.get(arr_idx) {
        Some(composite) => {
            if !composite.is_writeable() {
                return Err(Error::from(ErrorKind::InvalidAccess));
            }
            composite.len
        },
        None => {
            return Err(Error::from(ErrorKind::Undefined));
        },
    };
    let ghost rest = state.operand_stack@;
    if state.operand_stack.len() < len {
        state.operand_stack.clear();
        return Err(Error::from(ErrorKind::StackUnderflow));
    }
    let start = state.operand_stack.len() - len;
    let mut stored: Vec<Object> = Vec::with_capacity(len);
    let mut k: usize = start;
    while k < state.operand_stack.len()
        invariant
            state.operand_stack@ == rest,
            start <= k <= rest.len(),
            stored@ == rest.subrange(start as int, k as int),
        decreases rest.len() - k,
    {
        stored.push(state.operand_stack[k]);
        k = k + 1;
        assert(stored@ =~= rest.subrange(start as int, k as int));
    }
    state.operand_stack.truncate(start);
    let ghost arrays = state.arrays@;
    if let Some(composite) = state.arrays.get_mut(arr_idx) {
        composite.inner = stored;
    }
    proof {
        assert forall|j: int| 0 <= j < arrays.len() && j != arr_idx implies state.arrays@[j]
            == arrays[j] by {}
    }
    state.push(Object::Array(arr_idx));
    Ok(())
}

/// The outcome of `copy`: how `after` and the result `r` follow from `before`.
pub open spec fn copy_post(before: InterpreterState, after: InterpreterState, r: Result<()>) -> bool {
    &&& after.rng == before.rng
    &&& after.is_packing == before.is_packing
    &&& ({
        let s = before.operand_stack@;
        let arrays = before.arrays@;
        let rest = popped(s);
        if s.len() == 0 {
            fails_with(r, ErrorKind::StackUnderflow) && after.operand_stack@ == s
                && after.arrays == before.arrays
        } else {
            match s.last() {
                Object::Integer(n) => after.arrays == before.arrays && if n <= 0 {
                    r is Ok && after.operand_stack@ == rest
                } else if n > rest.len() {
                    fails_with(r, ErrorKind::StackUnderflow) && after.operand_stack@
                        == Seq::<Object>::empty()
                } else {
                    r is Ok && after.operand_stack@ == rest + rest.subrange(
                        rest.len() - n,
                        rest.len() as int,
                    )
                },
                Object::Array(di) => {
                    let rest2 = popped(rest);
                    if rest.len() == 0 {
                        fails_with(r, ErrorKind::StackUnderflow) && after.operand_stack@
                            == rest && after.arrays == before.arrays
                    } else {
                        match array_ref(rest.last()) {
                            None => fails_with(r, ErrorKind::TypeCheck)
                                && after.operand_stack@ == rest2 && after.arrays
                                == before.arrays,
                            Some(si) => match (array_at(arrays, si), array_at(arrays, di)) {
                                (None, _) => fails_with(r, ErrorKind::Undefined)
                                    && after.operand_stack@ == rest2
                                    && after.arrays == before.arrays,
                                (Some(a), _) if a.access == Access::ExecuteOnly => fails_with(
                                    r,
                                    ErrorKind::InvalidAccess,
                                ) && after.operand_stack@ == rest2
                                    && after.arrays == before.arrays,
                                (Some(_), None) => fails_with(r, ErrorKind::Undefined)
                                    && after.operand_stack@ == rest2
                                    && after.arrays == before.arrays,
                                (Some(_), Some(d)) if d.access == Access::ReadOnly => fails_with(
                                    r,
                                    ErrorKind::InvalidAccess,
                                ) && after.operand_stack@ == rest2
                                    && after.arrays == before.arrays,
                                (Some(a), Some(d)) => {
                                    let n = a.inner@.len() as int;
                                    let dn = d.inner@.len() as int;
                                    replaced(
                                        arrays,
                                        after.arrays@,
                                        di,
                                        overwrite(d.inner@, 0, a.inner@.take(fitting(0, n, dn))),
                                    ) && if n <= dn {
                                        r is Ok && after.operand_stack@ == rest2.push(
                                            Object::Array(di),
                                        )
                                    } else {
                                        fails_with(r, ErrorKind::RangeCheck)
                                            && after.operand_stack@ == rest2
                                    }
                                },
                            },
                        }
                    }
                },
                _ => fails_with(r, ErrorKind::TypeCheck) && after.operand_stack@ == rest
                    && after.arrays == before.arrays,
            }
        }
    })
}

/// `copy`: with an integer `n` on top, pushes copies of the `n` objects below it; with an
/// array on top, copies the elements of the array below it into it, and pushes it.
pub fn copy(state: &mut InterpreterState) -> (r: Result<()>)
    ensures
        copy_post(*old(state), *final(state), r),
{
    match state.pop()? {
        Object::Integer(n) => {
            if n <= 0 {
                return Ok(());
            }
            let n = n as usize;
            let len = state.operand_stack.len();
            if n > len {
                state.operand_stack.clear();
                return Err(Error::from(ErrorKind::StackUnderflow));
            }
            let ghost rest = state.operand_stack@;
            let mut k: usize = len - n;
            while k < len
                invariant
                    same_but_stack(*state, *old(state)),
                    len == rest.len(),
                    n <= len,
                    len - n <= k <= len,
                    state.operand_stack@ == rest + rest.subrange(len - n, k as int),
                decreases len - k,
            {
                let obj = state.operand_stack[k];
                state.push(obj);
                k = k + 1;
                assert(state.operand_stack@ =~= rest + rest.subrange(len - n, k as int));
            }
            Ok(())
        },
        Object::Array(dest_idx) => {
            let obj = state.pop()?;
            let source = match obj {
                Object::Array(idx) | Object::PackedArray(idx) => {
                    let Some(arr) = state.arrays.get(idx) else {
                        return Err(Error::from(ErrorKind::Undefined));
                    };
                    if arr.is_exec_only() {
                        return Err(Error::from(ErrorKind::InvalidAccess));
                    }
                    copy_elems(&arr.inner)
                },
                _ => {
                    return Err(Error::new(ErrorKind::TypeCheck, "expected array"));
                },
            };
            let ghost arrays = state.arrays@;
            let Some(destination) = state.arrays.get(dest_idx) else {
                return Err(Error::from(ErrorKind::Undefined));
            };
            if destination.is_read_only() {
                return Err(Error::from(ErrorKind::InvalidAccess));
            }
            let mut fits = false;
            if let Some(destination) = state.arrays.get_mut(dest_idx) {
                fits = write_elems(&mut destination.inner, 0, &source);
            }
            proof {
                assert forall|j: int| 0 <= j < arrays.len() && j != dest_idx implies state.arrays@[j]
                    == arrays[j] by {}
            }
            if !fits {
                return Err(Error::from(ErrorKind::RangeCheck));
            }
            state.push(Object::Array(dest_idx));
            Ok(())
        },
        _ => Err(Error::new(ErrorKind::TypeCheck, "expected integer")),
    }
}

/// Whether `roll` on stack `s` would divide by zero or overflow: its count is zero, or
/// count plus shift, or its remainder by the count, leaves the 32-bit range.
pub open spec fn roll_overflows(s: Seq<Object>) -> bool {
    s.len() >= 2 && s[s.len() - 1] is Integer && s[s.len() - 2] is Integer && {
        let j = s[s.len() - 1]->Integer_0 as int;
        let n = s[s.len() - 2]->Integer_0 as int;
        n == 0 || n + j > i32::MAX || n + j < i32::MIN || (n + j == i32::MIN && n == -1)
    }
}

/// The stack after rolling its top `n` objects up by `k` places (`0 <= k <= n`).
pub open spec fn rolled(s: Seq<Object>, n: int, k: int) -> Seq<Object> {
    let seg = s.subrange(s.len() - n, s.len() as int);
    s.subrange(0, s.len() - n) + seg.subrange(n - k, n) + seg.subrange(0, n - k)
}

/// Rolling the top `n` objects up by `k` places, then by `n - k`, leaves the stack as it
/// was: `n j roll` is undone by `n -j roll` for `-n < j < n`.
pub proof fn lemma_roll_inverse(s: Seq<Object>, n: int, k: int)
    requires
        0 <= k <= n <= s.len(),
    ensures
        rolled(rolled(s, n, k), n, n - k) == s,
        rolled(s, n, k).len() == s.len(),
{
    let r = rolled(s, n, k);
    assert(r.len() == s.len());
    assert(rolled(r, n, n - k) =~= s);
}

/// The shifts `roll` takes for `n j` and for `n -j` add up to `n` (or both are none) when
/// `0 < n` and `-n < j < n` (and neither sum overflows), so the second roll undoes the
/// first.
pub proof fn lemma_roll_shifts(n: i32, j: i32)
    requires
        0 < n,
        -n < j < n,
        n + j <= i32::MAX,
        n - j <= i32::MAX,
    ensures
        ({
            let a = ((n + j) as i32).checked_rem(n).unwrap();
            let b = ((n - j) as i32).checked_rem(n).unwrap();
            &&& 0 <= a < n
            &&& 0 <= b < n
            &&& (a + b == n || (a == 0 && b == 0))
        }),
{
    let ni = n as int;
    let ji = j as int;
    let a = ((n + j) as i32).checked_rem(n).unwrap();
    let b = ((n - j) as i32).checked_rem(n).unwrap();
    assert(((n + j) as i32) as int == ni + ji);
    assert(((n - j) as i32) as int == ni - ji);
    if ji >= 0 {
        vstd::arithmetic::div_mod::lemma_mod_add_multiples_vanish(ji, ni);
        vstd::arithmetic::div_mod::lemma_small_mod(ji as nat, ni as nat);
        assert(a as int == (ni + ji) % ni);
        assert(a as int == ji);
        if ji > 0 {
            vstd::arithmetic::div_mod::lemma_small_mod((ni - ji) as nat, ni as nat);
            assert(b as int == ni - ji);
        } else {
            vstd::arithmetic::div_mod::lemma_mod_self_0(ni);
            assert(b as int == 0);
        }
    } else {
        vstd::arithmetic::div_mod::lemma_small_mod((ni + ji) as nat, ni as nat);
        assert(a as int == ni + ji);
        vstd::arithmetic::div_mod::lemma_mod_add_multiples_vanish(-ji, ni);
        vstd::arithmetic::div_mod::lemma_small_mod((-ji) as nat, ni as nat);
        assert(b as int == -ji);
    }
}

/// What `astore` stores in an array is what `aload` then pushes.
pub proof fn lemma_astore_aload(
    before: Seq<Option<Composite>>,
    after: Seq<Option<Composite>>,
    i: usize,
    elems: Seq<Object>,
)
    requires
        replaced(before, after, i, elems),
    ensures
        array_at(after, i) is Some,
        array_at(after, i).unwrap().inner@ == elems,
        array_at(after, i).unwrap().access == array_at(before, i).unwrap().access,
{
}

/// The outcome of `roll`: how `after` and the result `r` follow from `before`.
pub open spec fn roll_post(before: InterpreterState, after: InterpreterState, r: Result<()>) -> bool {
    &&& same_but_stack(after, before)
    &&& ({
        let s = before.operand_stack@;
        let len = s.len();
        if len == 0 {
            fails_with(r, ErrorKind::StackUnderflow) && after.operand_stack@ == s
        } else if !(s[len - 1] is Integer) {
            fails_with(r, ErrorKind::TypeCheck) && after.operand_stack@ == s.drop_last()
        } else if len == 1 {
            fails_with(r, ErrorKind::StackUnderflow) && after.operand_stack@
                == s.drop_last()
        } else if !(s[len - 2] is Integer) {
            fails_with(r, ErrorKind::TypeCheck) && after.operand_stack@ == s.subrange(
                0,
                len - 2,
            )
        } else {
            let j = s[len - 1]->Integer_0;
            let n = s[len - 2]->Integer_0;
            let rest = s.subrange(0, len - 2);
            let jj = ((n + j) as i32).checked_rem(n).unwrap();
            if n <= 0 {
                r is Ok && after.operand_stack@ == rest
            } else if n > rest.len() {
                fails_with(r, ErrorKind::StackUnderflow) && after.operand_stack@
                    == Seq::<Object>::empty()
            } else {
                r is Ok && after.operand_stack@ == rolled(
                    rest,
                    n as int,
                    if jj < 0 {
                        0
                    } else {
                        jj as int
                    },
                )
            }
        }
    })
}

/// `roll`: rolls the top `n` objects up by `j` places, `n` and `j` taken from the stack;
/// the shift is `(n + j)` with the remainder of a division by `n` (sign of the dividend),
/// and a negative shift leaves the objects in place.
#[verifier::spinoff_prover]
#[verifier::rlimit(50)]
pub fn roll(state: &mut InterpreterState) -> (r: Result<()>)
    requires
        !roll_overflows(old(state).operand_stack@),
    ensures
        roll_post(*old(state), *final(state), r),
{
    let ghost s = state.operand_stack@;
    let j = state.pop_int()?;
    proof {
        lemma_two_below(s);
    }
    let n = state.pop_int()?;
    proof {
        assert(s[s.len() - 1] == Object::Integer(j));
        assert(s[s.len() - 2] == Object::Integer(n));
    }
    let sum = n + j;
    let jj = match sum.checked_rem(n) {
        Some(v) => v,
        None => 0,
    };
    if n <= 0 {
        return Ok(());
    }
    let n = n as usize;
    let len = state.operand_stack.len();
    if n > len {
        state.operand_stack.clear();
        return Err(Error::from(ErrorKind::StackUnderflow));
    }
    let k: usize = if jj < 0 {
        0
    } else {
        jj as usize
    };
    proof {
        assert(jj < n) by {
            assert(0 < n);
        }
    }
    let ghost rest = state.operand_stack@;
    let base = len - n;
    let mut result: Vec<Object> = Vec::with_capacity(len);
    let mut p: usize = 0;
    while p < base
        invariant
            state.operand_stack@ == rest,
            len == rest.len(),
            base <= len,
            p <= base,
            result@ == rest.subrange(0, p as int),
        decreases base - p,
    {
        result.push(state.operand_stack[p]);
        p = p + 1;
        assert(result@ =~= rest.subrange(0, p as int));
    }
    let mut q: usize = len - k;
    while q < len
        invariant
            state.operand_stack@ == rest,
            len == rest.len(),
            base <= len - k <= q <= len,
            result@ == rest.subrange(0, base as int) + rest.subrange(len - k, q as int),
        decreases len - q,
    {
        result.push(state.operand_stack[q]);
        q = q + 1;
        assert(result@ =~= rest.subrange(0, base as int) + rest.subrange(len - k, q as int));
    }
    let mut t: usize = base;
    while t < len - k
        invariant
            state.operand_stack@ == rest,
            len == rest.len(),
            base <= t <= len - k,
            result@ == rest.subrange(0, base as int) + rest.subrange(len - k, len as int)
                + rest.subrange(base as int, t as int),
        decreases len - k - t,
    {
        result.push(state.operand_stack[t]);
        t = t + 1;
        assert(result@ =~= rest.subrange(0, base as int) + rest.subrange(len - k, len as int)
            + rest.subrange(base as int, t as int));
    }
    proof {
        let seg = rest.subrange(len - n, len as int);
        assert(seg.subrange(n - k, n as int) =~= rest.subrange(len - k, len as int));
        assert(seg.subrange(0, n - k) =~= rest.subrange(base as int, len - k));
        assert(result@ =~= rolled(rest, n as int, k as int));
    }
    state.operand_stack = result;
    Ok(())
}

/// The outcome of `pop`: how `after` and the result `r` follow from `before`.
pub open spec fn pop_post(before: InterpreterState, after: InterpreterState, r: Result<()>) -> bool {
    &&& same_but_stack(after, before)
    &&& if before.operand_stack@.len() == 0 {
        fails_with(r, ErrorKind::StackUnderflow) && after.operand_stack@ == before.operand_stack@
    } else {
        r is Ok && after.operand_stack@ == before.operand_stack@.drop_last()
    }
}

/// `pop`: discards the top object.
pub fn pop(state: &mut InterpreterState) -> (r: Result<()>)
    ensures
        pop_post(*old(state), *final(state), r),
{
    state.pop()?;
    Ok(())
}

/// Numbers: what the arithmetic and unary number operators take.
pub open spec fn is_number(o: Object) -> bool {
    o is Integer || o is Real
}

/// Whether an object is a number.
fn number(o: Object) -> (b: bool)
    ensures
        b == is_number(o),
{
    match o {
        Object::Integer(_) | Object::Real(_) => true,
        _ => false,
    }
}

/// The operands an operator with a real case hands back, as the contracts see them: none
/// when it is done, or the operands it took off the stack, bottom first.
pub open spec fn operands_view(r: Result<Option<Vec<Object>>>) -> Result<Option<Seq<Object>>> {
    match r {
        Ok(Some(v)) => Ok(Some(v@)),
        Ok(None) => Ok(None),
        Err(e) => Err(e),
    }
}

/// The operations of `add`, `sub`, `mul` and `div`.
#[derive(Clone, Copy, Debug, PartialEq, Eq, Structural)]
pub enum Arithmetic {
    Add,
    Sub,
    Mul,
    Div,
}

/// The exact value of `op` on two integers; a quotient is never an integer result.
pub open spec fn arithmetic_value(op: Arithmetic, a: int, b: int) -> Option<int> {
    match op {
        Arithmetic::Add => Some(a + b),
        Arithmetic::Sub => Some(a - b),
        Arithmetic::Mul => Some(a * b),
        Arithmetic::Div => None,
    }
}

/// The integer result of `op` on the two top objects of `s`: where both are integers
/// (the first operand below the second) and the exact value fits an integer.
pub open spec fn integer_arithmetic(op: Arithmetic, s: Seq<Object>) -> Option<i32> {
    let n = s.len();
    if n >= 2 && s[n - 2] is Integer && s[n - 1] is Integer {
        match arithmetic_value(op, s[n - 2]->Integer_0 as int, s[n - 1]->Integer_0 as int) {
            Some(v) => if i32::MIN <= v <= i32::MAX {
                Some(v as i32)
            } else {
                None
            },
            None => None,
        }
    } else {
        None
    }
}

/// The outcome of `arithmetic`: the two operands are taken off the stack; two integers
/// whose result fits give that integer, pushed; two other numbers are handed back for the
/// real result; anything else is a `typecheck`.
pub open spec fn arithmetic_post(
    op: Arithmetic,
    before: InterpreterState,
    after: InterpreterState,
    r: Result<Option<Seq<Object>>>,
) -> bool {
    &&& same_but_stack(after, before)
    &&& ({
        let s = before.operand_stack@;
        let n = s.len();
        if n == 0 {
            fails_with(r, ErrorKind::StackUnderflow) && after.operand_stack@ == s
        } else if n == 1 {
            fails_with(r, ErrorKind::StackUnderflow) && after.operand_stack@
                == Seq::<Object>::empty()
        } else {
            let lhs = s[n - 2];
            let rhs = s[n - 1];
            let rest = s.subrange(0, n - 2);
            match integer_arithmetic(op, s) {
                Some(v) => r == Ok::<Option<Seq<Object>>, Error>(None) && after.operand_stack@
                    == rest.push(Object::Integer(v)),
                None => after.operand_stack@ == rest && if is_number(lhs) && is_number(rhs) {
                    r == Ok::<Option<Seq<Object>>, Error>(Some(seq![lhs, rhs]))
                } else {
                    fails_with(r, ErrorKind::TypeCheck)
                },
            }
        }
    })
}

/// `add`, `sub`, `mul` and `div` on the two top objects: an integer result where both are
/// integers and it fits, pushed (`Ok(None)`); otherwise the two numbers, handed back for
/// the caller to push their real result.
pub fn arithmetic(state: &mut InterpreterState, op: Arithmetic) -> (r: Result<Option<Vec<Object>>>)
    ensures
        arithmetic_post(op, *old(state), *final(state), operands_view(r)),
{
    let ghost s = state.operand_stack@;
    let rhs = state.pop()?;
    proof {
        lemma_two_below(s);
    }
    let lhs = state.pop()?;
    if let (Object::Integer(l), Object::Integer(r)) = (lhs, rhs) {
        let total = match op {
            Arithmetic::Add => l.checked_add(r),
            Arithmetic::Sub => l.checked_sub(r),
            Arithmetic::Mul => l.checked_mul(r),
            Arithmetic::Div => None,
        };
        if let Some(total) = total {
            state.push(Object::Integer(total));
            assert(state.operand_stack@ =~= s.subrange(0, s.len() - 2).push(
                Object::Integer(total),
            ));
            return Ok(None);
        }
    }
    if !number(lhs) || !number(rhs) {
        return Err(Error::new(ErrorKind::TypeCheck, "expected real"));
    }
    let operands = vec![lhs, rhs];
    assert(operands@ =~= seq![lhs, rhs]);
    Ok(Some(operands))
}

/// The operations of `abs`, `neg`, `ceiling`, `floor`, `round` and `truncate`.
#[derive(Clone, Copy, Debug, PartialEq, Eq, Structural)]
pub enum Unary {
    Abs,
    Neg,
    Ceiling,
    Floor,
    Round,
    Truncate,
}

/// The integer result of `op` on an integer, where it fits an integer: an integer is its
/// own ceiling, floor, rounding and truncation.
pub open spec fn checked_unary(op: Unary, n: i32) -> Option<i32> {
    match op {
        Unary::Abs => if n == i32::MIN {
            None
        } else if n < 0 {
            Some((0 - n) as i32)
        } else {
            Some(n)
        },
        Unary::Neg => if n == i32::MIN {
            None
        } else {
            Some((0 - n) as i32)
        },
        _ => Some(n),
    }
}

/// The outcome of `num_unary`: the top object is taken off the stack; an integer whose
/// result fits gives that integer, pushed; another number is handed back for the real
/// result; anything else is a `typecheck`.
pub open spec fn num_unary_post(
    op: Unary,
    before: InterpreterState,
    after: InterpreterState,
    r: Result<Option<Seq<Object>>>,
) -> bool {
    &&& same_but_stack(after, before)
    &&& ({
        let s = before.operand_stack@;
        if s.len() == 0 {
            fails_with(r, ErrorKind::StackUnderflow) && after.operand_stack@ == s
        } else {
            let x = s.last();
            let rest = s.drop_last();
            if x is Integer && checked_unary(op, x->Integer_0) is Some {
                r == Ok::<Option<Seq<Object>>, Error>(None) && after.operand_stack@ == rest.push(
                    Object::Integer(checked_unary(op, x->Integer_0).unwrap()),
                )
            } else {
                after.operand_stack@ == rest && if is_number(x) {
                    r == Ok::<Option<Seq<Object>>, Error>(Some(seq![x]))
                } else {
                    fails_with(r, ErrorKind::TypeCheck)
                }
            }
        }
    })
}

/// `abs` on an integer other than the least one succeeds and replaces it by its absolute
/// value: a non-negative integer equal to it or to its negation (to it where it is not
/// negative); the objects below are left as they were.
pub proof fn lemma_abs_integer(
    before: InterpreterState,
    after: InterpreterState,
    r: Result<Option<Seq<Object>>>,
    n: i32,
)
    requires
        num_unary_post(Unary::Abs, before, after, r),
        before.operand_stack@.len() > 0,
        before.operand_stack@.last() == Object::Integer(n),
        n != i32::MIN,
    ensures
        r == Ok::<Option<Seq<Object>>, Error>(None),
        after.operand_stack@.len() == before.operand_stack@.len(),
        after.operand_stack@.drop_last() == before.operand_stack@.drop_last(),
        after.operand_stack@.last() matches Object::Integer(v) && v >= 0 && (v == n || v == -n)
            && (n >= 0 ==> v == n),
{
    assert(after.operand_stack@.drop_last() =~= before.operand_stack@.drop_last());
}

/// `neg` on an integer other than the least one succeeds and replaces it by its negation;
/// the objects below are left as they were.
pub proof fn lemma_neg_integer(
    before: InterpreterState,
    after: InterpreterState,
    r: Result<Option<Seq<Object>>>,
    n: i32,
)
    requires
        num_unary_post(Unary::Neg, before, after, r),
        before.operand_stack@.len() > 0,
        before.operand_stack@.last() == Object::Integer(n),
        n != i32::MIN,
    ensures
        r == Ok::<Option<Seq<Object>>, Error>(None),
        after.operand_stack@.len() == before.operand_stack@.len(),
        after.operand_stack@.drop_last() == before.operand_stack@.drop_last(),
        after.operand_stack@.last() matches Object::Integer(v) && v == -n,
{
    assert(after.operand_stack@.drop_last() =~= before.operand_stack@.drop_last());
}

/// `ceiling`, `floor`, `round` and `truncate` leave an integer as it is.
pub proof fn lemma_rounding_keeps_integer(
    op: Unary,
    before: InterpreterState,
    after: InterpreterState,
    r: Result<Option<Seq<Object>>>,
    n: i32,
)
    requires
        op != Unary::Abs && op != Unary::Neg,
        num_unary_post(op, before, after, r),
        before.operand_stack@.len() > 0,
        before.operand_stack@.last() == Object::Integer(n),
    ensures
        r == Ok::<Option<Seq<Object>>, Error>(None),
        after.operand_stack@ == before.operand_stack@,
{
    assert(after.operand_stack@ =~= before.operand_stack@);
}

/// The unary number operators on the top object: an integer result where it is an integer
/// and the result fits, pushed (`Ok(None)`); otherwise the number, handed back for the
/// caller to push its real result.
pub fn num_unary(state: &mut InterpreterState, op: Unary) -> (r: Result<Option<Vec<Object>>>)
    ensures
        num_unary_post(op, *old(state), *final(state), operands_view(r)),
{
    let ghost s = state.operand_stack@;
    let n = state.pop()?;
    if let Object::Integer(i) = n {
        let total = match op {
            Unary::Abs => if i == i32::MIN {
                None
            } else if i < 0 {
                Some(0 - i)
            } else {
                Some(i)
            },
            Unary::Neg => if i == i32::MIN {
                None
            } else {
                Some(0 - i)
            },
            _ => Some(i),
        };
        if let Some(total) = total {
            state.push(Object::Integer(total));
            return Ok(None);
        }
    }
    if !number(n) {
        return Err(Error::new(ErrorKind::TypeCheck, "expected real"));
    }
    let operands = vec![n];
    assert(operands@ =~= seq![n]);
    Ok(Some(operands))
}

/// The outcome of taking one real off the stack for an operator on reals.
pub open spec fn real_unary_post(
    before: InterpreterState,
    after: InterpreterState,
    r: Result<Option<Seq<Object>>>,
) -> bool {
    &&& same_but_stack(after, before)
    &&& ({
        let s = before.operand_stack@;
        if s.len() == 0 {
            fails_with(r, ErrorKind::StackUnderflow) && after.operand_stack@ == s
        } else {
            after.operand_stack@ == s.drop_last() && if s.last() is Real {
                r == Ok::<Option<Seq<Object>>, Error>(Some(seq![s.last()]))
            } else {
                fails_with(r, ErrorKind::TypeCheck)
            }
        }
    })
}

/// Takes the real operand of an operator on reals (`sqrt`, `cos`, `sin`, `ln`, `log`) off
/// the stack and hands it back for the caller to push the result.
pub fn real_unary(state: &mut InterpreterState) -> (r: Result<Option<Vec<Object>>>)
    ensures
        real_unary_post(*old(state), *final(state), operands_view(r)),
{
    let bits = state.pop_real()?;
    let operands = vec![Object::Real(bits)];
    assert(operands@ =~= seq![Object::Real(bits)]);
    Ok(Some(operands))
}

/// The outcome of taking two reals off the stack for an operator on reals: the top one
/// first, each a `typecheck` where it is not a real.
pub open spec fn real_binary_post(
    before: InterpreterState,
    after: InterpreterState,
    r: Result<Option<Seq<Object>>>,
) -> bool {
    &&& same_but_stack(after, before)
    &&& ({
        let s = before.operand_stack@;
        let n = s.len();
        if n == 0 {
            fails_with(r, ErrorKind::StackUnderflow) && after.operand_stack@ == s
        } else if !(s[n - 1] is Real) {
            fails_with(r, ErrorKind::TypeCheck) && after.operand_stack@ == s.drop_last()
        } else if n == 1 {
            fails_with(r, ErrorKind::StackUnderflow) && after.operand_stack@
                == Seq::<Object>::empty()
        } else if !(s[n - 2] is Real) {
            fails_with(r, ErrorKind::TypeCheck) && after.operand_stack@ == s.subrange(0, n - 2)
        } else {
            r == Ok::<Option<Seq<Object>>, Error>(Some(seq![s[n - 2], s[n - 1]]))
                && after.operand_stack@ == s.subrange(0, n - 2)
        }
    })
}

/// Takes the two real operands of an operator on reals (`atan`, `exp`) off the stack and
/// hands them back, bottom first, for the caller to push the result.
pub fn real_binary(state: &mut InterpreterState) -> (r: Result<Option<Vec<Object>>>)
    ensures
        real_binary_post(*old(state), *final(state), operands_view(r)),
{
    let ghost s = state.operand_stack@;
    let second = state.pop_real()?;
    proof {
        lemma_two_below(s);
    }
    let first = state.pop_real()?;
    let operands = vec![Object::Real(first), Object::Real(second)];
    assert(operands@ =~= seq![s[s.len() - 2], s[s.len() - 1]]);
    Ok(Some(operands))
}

/// `atan`: takes the numerator and the denominator, reals, off the stack; the caller
/// pushes the angle, in degrees, whose tangent is their quotient.
pub fn atan(state: &mut InterpreterState) -> (r: Result<Option<Vec<Object>>>)
    ensures
        real_binary_post(*old(state), *final(state), operands_view(r)),
{
    real_binary(state)
}

/// `cos`: takes an angle in degrees, a real, off the stack; the caller pushes its cosine.
pub fn cos(state: &mut InterpreterState) -> (r: Result<Option<Vec<Object>>>)
    ensures
        real_unary_post(*old(state), *final(state), operands_view(r)),
{
    real_unary(state)
}

/// `sin`: takes an angle in degrees, a real, off the stack; the caller pushes its sine.
pub fn sin(state: &mut InterpreterState) -> (r: Result<Option<Vec<Object>>>)
    ensures
        real_unary_post(*old(state), *final(state), operands_view(r)),
{
    real_unary(state)
}

} // verus!
