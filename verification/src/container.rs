use vstd::prelude::*;

verus! {

/// Values stored under the addresses `0, 1, 2, ...` in the order they were inserted; an
/// address whose value was removed stays empty. The view has one entry per address given
/// out so far.
pub struct Container<T> {
    inner: Vec<Option<T>>,
}

/// A call that changes a container, as the laws over sequences of calls see it: `insert`,
/// a write through `get_mut`, and `remove`.
pub enum ContainerStep<T> {
    Insert(T),
    Write(usize, T),
    Remove(usize),
}

/// The values after one call: an insert appends, a write replaces a stored value, a
/// remove empties its address; a write to an empty or unknown address and a remove of an
/// unknown address change nothing.
pub open spec fn apply_step<T>(s: Seq<Option<T>>, step: ContainerStep<T>) -> Seq<Option<T>> {
    match step {
        ContainerStep::Insert(v) => s.push(Some(v)),
        ContainerStep::Write(a, v) => if a < s.len() && s[a as int] is Some {
            s.update(a as int, Some(v))
        } else {
            s
        },
        ContainerStep::Remove(a) => if a < s.len() {
            s.update(a as int, None)
        } else {
            s
        },
    }
}

/// The values after the calls `steps`, in order.
pub open spec fn apply_steps<T>(s: Seq<Option<T>>, steps: Seq<ContainerStep<T>>) -> Seq<Option<T>>
    decreases steps.len(),
{
    if steps.len() == 0 {
        s
    } else {
        apply_step(apply_steps(s, steps.drop_last()), steps.last())
    }
}

/// The number of inserts among `steps`.
pub open spec fn inserts<T>(steps: Seq<ContainerStep<T>>) -> nat
    decreases steps.len(),
{
    if steps.len() == 0 {
        0
    } else {
        inserts(steps.drop_last()) + if steps.last() is Insert {
            1nat
        } else {
            0nat
        }
    }
}

/// Whether a call writes or removes at `a`.
pub open spec fn touches<T>(step: ContainerStep<T>, a: usize) -> bool {
    match step {
        ContainerStep::Insert(_) => false,
        ContainerStep::Write(b, _) => b == a,
        ContainerStep::Remove(b) => b == a,
    }
}

/// Addresses are handed out in order and never again: after any calls, the next insert
/// gives the count of addresses before them plus the number of inserts among them.
pub proof fn lemma_container_addresses<T>(s: Seq<Option<T>>, steps: Seq<ContainerStep<T>>)
    ensures
        apply_steps(s, steps).len() == s.len() + inserts(steps),
    decreases steps.len(),
{
    if steps.len() > 0 {
        lemma_container_addresses(s, steps.drop_last());
    }
}

/// A value stays readable at its address through any calls that neither write nor
/// remove at that address.
pub proof fn lemma_container_kept<T>(s: Seq<Option<T>>, steps: Seq<ContainerStep<T>>, a: usize)
    requires
        a < s.len(),
        forall|i: int| 0 <= i < steps.len() ==> !touches(#[trigger] steps[i], a),
    ensures
        apply_steps(s, steps).len() >= s.len(),
        apply_steps(s, steps)[a as int] == s[a as int],
    decreases steps.len(),
{
    if steps.len() > 0 {
        let rest = steps.drop_last();
        assert forall|i: int| 0 <= i < rest.len() implies !touches(#[trigger] rest[i], a) by {
            assert(rest[i] == steps[i]);
        }
        lemma_container_kept(s, rest, a);
        assert(!touches(steps[steps.len() - 1], a));
    }
}

/// A remove gives the value once: afterwards the address is empty, and a second remove
/// changes nothing.
pub proof fn lemma_container_remove_once<T>(s: Seq<Option<T>>, a: usize)
    requires
        a < s.len(),
    ensures
        apply_step(s, ContainerStep::Remove(a))[a as int] is None,
        apply_step(apply_step(s, ContainerStep::Remove(a)), ContainerStep::Remove(a))
            == apply_step(s, ContainerStep::Remove(a)),
{
    let t = apply_step(s, ContainerStep::Remove(a));
    assert(t.update(a as int, None) =~= t);
}

impl<T> View for Container<T> {
    type V = Seq<Option<T>>;

    closed spec fn view(&self) -> Seq<Option<T>> {
        self.inner@
    }
}

impl<T> Default for Container<T> {
    fn default() -> (r: Self)
        ensures
            r@ == Seq::<Option<T>>::empty(),
    {
        Container { inner: Vec::new() }
    }
}

impl<T> Container<T> {
    pub fn new() -> (r: Self)
        ensures
            r@ == Seq::<Option<T>>::empty(),
    {
        Container { inner: Vec::new() }
    }

    /// The number of addresses given out so far.
    pub fn len(&self) -> (r: usize)
        ensures
            r == self@.len(),
    {
        self.inner.len()
    }

    /// Stores `value` under the next address and returns that address.
    pub fn insert(&mut self, value: T) -> (r: usize)
        requires
            old(self)@.len() < usize::MAX,
        ensures
            r == old(self)@.len(),
            final(self)@ == old(self)@.push(Some(value)),
            final(self)@ == apply_step(old(self)@, ContainerStep::Insert(value)),
    {
        let addr = self.inner.len();
        self.inner.push(Some(value));
        addr
    }

    /// The value stored under `address`.
    pub fn get(&self, address: usize) -> (r: Option<&T>)
        ensures
            match r {
                Some(v) => address < self@.len() && self@[address as int] == Some(*v),
                None => address >= self@.len() || self@[address as int] is None,
            },
    {
        if address < self.inner.len() {
            match &self.inner[address] {
                Some(v) => Some(v),
                None => None,
            }
        } else {
            None
        }
    }

    /// A mutable reference to the value stored under `address`.
    pub fn get_mut(&mut self, address: usize) -> (r: Option<&mut T>)
        ensures
            match r {
                Some(v) => address < old(self)@.len() && old(self)@[address as int] == Some(*v)
                    && final(self)@ == old(self)@.update(address as int, Some(*final(v)))
                    && final(self)@ == apply_step(old(self)@, ContainerStep::Write(address, *final(v))),
                None => (address >= old(self)@.len() || old(self)@[address as int] is None)
                    && *final(self) == *old(self),
            },
    {
        if address >= self.inner.len() || self.inner[address].is_none() {
            return None;
        }
        match &mut self.inner[address] {
            Some(v) => {
                assert(after_borrow(self).inner@ == old(self).inner@.update(
                    address as int,
                    Some(*final(v)),
                ));
                Some(v)
            },
            None => None,
        }
    }

    /// Takes the value out of `address`, leaving it empty.
    pub fn remove(&mut self, address: usize) -> (r: Option<T>)
        ensures
            address < old(self)@.len() ==> r == old(self)@[address as int] && final(self)@
                == old(self)@.update(address as int, None),
            address >= old(self)@.len() ==> r is None && final(self)@ == old(self)@,
            final(self)@ == apply_step(old(self)@, ContainerStep::Remove(address)),
    {
        if address < self.inner.len() {
            let mut entry: Option<T> = None;
            std::mem::swap(&mut entry, &mut self.inner[address]);
            entry
        } else {
            None
        }
    }
}

} // verus!
