use vstd::prelude::*;

verus! {

/// A stack with a fixed capacity of `N` items.
///
/// Its view is the sequence of the items it holds, the bottom of the stack first.
#[derive(Debug)]
pub struct Stack<T, const N: usize> {
    items: Vec<T>,
}

impl<T, const N: usize> Stack<T, N> {
    /// The items on the stack, bottom first.
    pub closed spec fn view(&self) -> Seq<T> {
        self.items@
    }

    /// A stack never holds more than `N` items.
    pub open spec fn wf(&self) -> bool {
        self@.len() <= N
    }

    /// Create an empty stack.
    pub fn new() -> (stack: Self)
        ensures
            stack.wf(),
            stack@ == Seq::<T>::empty(),
    {
        Stack { items: Vec::new() }
    }

    /// The number of items that the stack can hold.
    pub fn capacity(&self) -> (n: usize)
        ensures
            n == N,
    {
        N
    }

    /// The stack pointer: the number of items on the stack, which is also the index that
    /// the next pushed item gets.
    pub fn pointer(&self) -> (n: usize)
        ensures
            n == self@.len(),
    {
        self.items.len()
    }

    /// The number of items on the stack.
    pub fn len(&self) -> (n: usize)
        ensures
            n == self@.len(),
    {
        self.items.len()
    }

    /// Set the stack pointer to 0, which drops every item.
    pub fn reset(&mut self)
        ensures
            final(self)@ == Seq::<T>::empty(),
            final(self).wf(),
    {
        self.items.clear();
    }

    /// Push a value onto the stack and return its index. A full stack is left as it is
    /// and `None` is returned.
    pub fn push(&mut self, value: T) -> (index: Option<usize>)
        requires
            old(self).wf(),
        ensures
            final(self).wf(),
            old(self)@.len() < N ==> index == Some(old(self)@.len() as usize) && final(self)@
                == old(self)@.push(value),
            old(self)@.len() >= N ==> index.is_none() && final(self)@ == old(self)@,
    {
        if self.items.len() == N {
            return None;
        }
        self.items.push(value);
        Some(self.items.len() - 1)
    }

    /// Remove the value at the top of the stack and return it, or `None` from an empty
    /// stack.
    pub fn pop(&mut self) -> (value: Option<T>)
        requires
            old(self).wf(),
        ensures
            final(self).wf(),
            old(self)@.len() > 0 ==> value == Some(old(self)@.last()) && final(self)@ == old(
                self,
            )@.drop_last(),
            old(self)@.len() == 0 ==> value.is_none() && final(self)@ == old(self)@,
    {
        self.items.pop()
    }

    /// A shared reference to the value at the top of the stack, or `None` from an empty
    /// stack.
    pub fn top(&self) -> (value: Option<&T>)
        ensures
            self@.len() > 0 ==> value == Some(&self@.last()),
            self@.len() == 0 ==> value.is_none(),
    {
        let n = self.items.len();
        if n == 0 {
            return None;
        }
        Some(&self.items[n - 1])
    }

    /// Replace the value at the top of the stack and hand back the one that was there.
    /// An empty stack is left as it is and the new value comes back as the error.
    pub fn replace_top(&mut self, value: T) -> (previous: Result<T, T>)
        requires
            old(self).wf(),
        ensures
            final(self).wf(),
            old(self)@.len() > 0 ==> previous == Ok::<T, T>(old(self)@.last()) && final(self)@
                == old(self)@.update(old(self)@.len() - 1, value),
            old(self)@.len() == 0 ==> previous == Err::<T, T>(value) && final(self)@ == old(
                self,
            )@,
    {
        let n = self.items.len();
        if n == 0 {
            return Err(value);
        }
        let previous = self.items.pop().unwrap();
        self.items.push(value);
        assert(self.items@ =~= old(self).items@.update(n - 1, value));
        Ok(previous)
    }

    /// A shared reference to the item at `index`, counted from the bottom.
    pub fn index(&self, index: usize) -> (value: &T)
        requires
            index < self@.len(),
        ensures
            *value == self@[index as int],
    {
        &self.items[index]
    }

    /// Overwrite the item at `index`, counted from the bottom.
    pub fn set(&mut self, index: usize, value: T)
        requires
            old(self).wf(),
            index < old(self)@.len(),
        ensures
            final(self).wf(),
            final(self)@ == old(self)@.update(index as int, value),
    {
        self.items.set(index, value);
    }

    /// Drop the items at `len` and above; a stack that holds no more than `len` items is
    /// left as it is.
    pub fn truncate(&mut self, len: usize)
        requires
            old(self).wf(),
        ensures
            final(self).wf(),
            len <= old(self)@.len() ==> final(self)@ == old(self)@.subrange(0, len as int),
            len > old(self)@.len() ==> final(self)@ == old(self)@,
    {
        self.items.truncate(len);
    }

    /// An iterator through all items that are currently in the stack, bottom first.
    pub fn iter<'stack>(&'stack self) -> (it: StackIter<'stack, T, N>)
        ensures
            it.wf(),
            it@ == self@,
    {
        StackIter::new(self)
    }
}

impl<T, const N: usize> Default for Stack<T, N> {
    fn default() -> (stack: Self)
        ensures
            stack.wf(),
            stack@ == Seq::<T>::empty(),
    {
        Stack { items: Vec::new() }
    }
}

/// An iterator through the items of a stack, which can be advanced from both ends.
///
/// Its view is the sequence of the items that it has not handed out yet.
pub struct StackIter<'stack, T, const N: usize> {
    stack: &'stack Stack<T, N>,
    pointer_front: usize,
    pointer_back: usize,
}

impl<'stack, T, const N: usize> StackIter<'stack, T, N> {
    /// The items still to come, in the order in which `next` hands them out.
    pub closed spec fn view(&self) -> Seq<T> {
        self.stack@.subrange(self.pointer_front as int, self.pointer_back as int)
    }

    /// Both pointers lie within the stack and have not crossed.
    pub closed spec fn wf(&self) -> bool {
        self.pointer_front <= self.pointer_back <= self.stack@.len()
    }

    /// Start an iteration over the whole of `stack`.
    pub fn new(stack: &'stack Stack<T, N>) -> (it: Self)
        ensures
            it.wf(),
            it@ == stack@,
    {
        let it = StackIter { stack, pointer_front: 0, pointer_back: stack.len() };
        assert(it@ =~= stack@);
        it
    }

    /// Hand out the first of the remaining items.
    pub fn next(&mut self) -> (item: Option<&'stack T>)
        requires
            old(self).wf(),
        ensures
            final(self).wf(),
            old(self)@.len() > 0 ==> item == Some(&old(self)@.first()) && final(self)@ == old(
                self,
            )@.drop_first(),
            old(self)@.len() == 0 ==> item.is_none() && final(self)@ == old(self)@,
    {
        if self.pointer_front >= self.pointer_back {
            return None;
        }
        let value = self.stack.index(self.pointer_front);
        self.pointer_front += 1;
        assert(self@ =~= old(self)@.drop_first());
        Some(value)
    }

    /// Hand out the last of the remaining items.
    pub fn next_back(&mut self) -> (item: Option<&'stack T>)
        requires
            old(self).wf(),
        ensures
            final(self).wf(),
            old(self)@.len() > 0 ==> item == Some(&old(self)@.last()) && final(self)@ == old(
                self,
            )@.drop_last(),
            old(self)@.len() == 0 ==> item.is_none() && final(self)@ == old(self)@,
    {
        if self.pointer_back <= self.pointer_front {
            return None;
        }
        self.pointer_back -= 1;
        let value = self.stack.index(self.pointer_back);
        assert(self@ =~= old(self)@.drop_last());
        Some(value)
    }

    /// The number of items still to come.
    pub fn len(&self) -> (n: usize)
        requires
            self.wf(),
        ensures
            n == self@.len(),
    {
        self.pointer_back - self.pointer_front
    }
}

} // verus!
