use vstd::prelude::*;

verus! {

/// A last-in first-out stack; its view lists the items from the bottom to the top.
#[derive(Debug)]
pub struct Stack<T> {
    data: Vec<T>,
}

impl<T> View for Stack<T> {
    type V = Seq<T>;

    closed spec fn view(&self) -> Seq<T> {
        self.data@
    }
}

impl<T> Default for Stack<T> {
    fn default() -> (r: Self)
        ensures
            r@ == Seq::<T>::empty(),
    {
        Self::new()
    }
}

impl<T> From<Stack<T>> for Vec<T> {
    fn from(value: Stack<T>) -> (r: Vec<T>)
        ensures
            r@ == value@,
    {
        value.data
    }
}

impl<T> vstd::std_specs::convert::FromSpecImpl<Stack<T>> for Vec<T> {
    open spec fn obeys_from_spec() -> bool {
        true
    }

    closed spec fn from_spec(v: Stack<T>) -> Vec<T> {
        v.data
    }
}

impl<T> Stack<T> {
    pub fn new() -> (r: Self)
        ensures
            r@ == Seq::<T>::empty(),
    {
        Self { data: Vec::new() }
    }

    pub fn push(&mut self, value: T)
        ensures
            final(self)@ == old(self)@.push(value),
    {
        self.data.push(value);
    }

    pub fn pop(&mut self) -> (r: Option<T>)
        ensures
            old(self)@.len() == 0 ==> r.is_none() && final(self)@ == old(self)@,
            old(self)@.len() > 0 ==> r == Some(old(self)@.last()) && final(self)@
                == old(self)@.drop_last(),
    {
        self.data.pop()
    }

    pub fn top(&self) -> (r: Option<&T>)
        ensures
            self@.len() == 0 ==> r.is_none(),
            self@.len() > 0 ==> r == Some(&self@.last()),
    {
        if self.data.len() == 0 {
            None
        } else {
            Some(&self.data[self.data.len() - 1])
        }
    }

    /// Returns the topmost item on which `condition` holds.
    pub fn search<C>(&self, condition: C) -> (r: Option<&T>)
        where
            C: Fn(&T) -> bool,
        requires
            forall|i: int| 0 <= i < self@.len() ==> call_requires(condition, (&self@[i],)),
        ensures
            r.is_none() ==> forall|i: int|
                0 <= i < self@.len() ==> call_ensures(condition, (&self@[i],), false),
            r.is_some() ==> exists|i: int|
                0 <= i < self@.len() && r == Some(&self@[i]) && call_ensures(
                    condition,
                    (&self@[i],),
                    true,
                ) && forall|j: int|
                    i < j < self@.len() ==> call_ensures(condition, (&self@[j],), false),
    {
        let mut i = self.data.len();
        while i > 0
            invariant
                i <= self@.len(),
                forall|k: int| 0 <= k < self@.len() ==> call_requires(condition, (&self@[k],)),
                forall|j: int| i <= j < self@.len() ==> call_ensures(condition, (&self@[j],), false),
            decreases i,
        {
            i = i - 1;
            if condition(&self.data[i]) {
                return Some(&self.data[i]);
            }
        }
        None
    }

    pub fn clear(&mut self)
        ensures
            final(self)@ == Seq::<T>::empty(),
    {
        self.data.clear();
    }

    pub fn count(&self) -> (r: usize)
        ensures
            r == self@.len(),
    {
        self.data.len()
    }
}

/// Pop after push: pushing `v` and then popping gives `v` back and leaves the stack as it
/// was; the pushed item is then also what `top` shows.
pub proof fn lemma_pop_after_push<T>(s: Seq<T>, v: T)
    ensures
        s.push(v).len() > 0,
        s.push(v).last() == v,
        s.push(v).drop_last() == s,
{
    assert(s.push(v).drop_last() =~= s);
}

} // verus!
