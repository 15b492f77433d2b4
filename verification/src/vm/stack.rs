use vstd::prelude::*;

verus! {

/// The default capacity of a stack.
pub const DEFAULT_CAPACITY: usize = 2048;

/// A stack that holds at most `capacity` values.
#[derive(Debug)]
pub struct Stack<T> {
    pub data: Vec<T>,
    pub capacity: usize,
}

impl<T> View for Stack<T> {
    type V = Seq<T>;

    /// The values on the stack, the top one last.
    open spec fn view(&self) -> Seq<T> {
        self.data@
    }
}

/// The `count` values on top of `values`, the top one first.
pub open spec fn top_first<T>(values: Seq<T>, count: int) -> Seq<T> {
    Seq::new(count as nat, |i: int| values[values.len() - 1 - i])
}

impl<T> Stack<T> {
    /// An empty stack that holds at most `capacity` values.
    pub fn new(capacity: usize) -> (stack: Self)
        ensures
            stack@.len() == 0,
            stack.capacity == capacity,
    {
        Stack { data: Vec::new(), capacity }
    }

    /// The number of values on the stack.
    pub fn len(&self) -> (n: usize)
        ensures
            n == self@.len(),
    {
        self.data.len()
    }

    /// Puts `value` on top of the stack, unless the stack is full: then the
    /// stack stays as it is and the value comes back.
    pub fn push(&mut self, value: T) -> (pushed: Result<(), T>)
        ensures
            final(self).capacity == old(self).capacity,
            old(self)@.len() < old(self).capacity ==> pushed is Ok && final(self)@ == old(self)@.push(
                value,
            ),
            old(self)@.len() >= old(self).capacity ==> pushed == Err::<(), T>(value) && final(self)@
                == old(self)@,
    {
        if self.data.len() < self.capacity {
            self.data.push(value);
            Ok(())
        } else {
            Err(value)
        }
    }

    /// Takes the top value off the stack, if there is one.
    pub fn pop(&mut self) -> (value: Option<T>)
        ensures
            final(self).capacity == old(self).capacity,
            old(self)@.len() > 0 ==> value == Some(old(self)@.last()) && final(self)@ == old(
                self,
            )@.drop_last(),
            old(self)@.len() == 0 ==> value is None && final(self)@ == old(self)@,
    {
        self.data.pop()
    }

    /// The top value, if there is one.
    pub fn peek(&self) -> (value: Option<&T>)
        ensures
            self@.len() > 0 ==> value == Some(&self@.last()),
            self@.len() == 0 ==> value is None,
    {
        let n: usize = self.data.len();
        if n == 0 {
            None
        } else {
            Some(&self.data[n - 1])
        }
    }

    /// Takes the `count` top values off the stack, or all if there are
    /// fewer, and hands them out, the top one first.
    pub fn drain(&mut self, count: usize) -> (values: Vec<T>)
        ensures
            final(self).capacity == old(self).capacity,
            ({
                let taken = if count <= old(self)@.len() {
                    count as int
                } else {
                    old(self)@.len() as int
                };
                &&& values@ == top_first(old(self)@, taken)
                &&& final(self)@ == old(self)@.take(old(self)@.len() - taken)
            }),
    {
        let ghost before = self.data@;
        let mut values: Vec<T> = Vec::new();
        let mut left: usize = count;
        while left > 0 && self.data.len() > 0
            invariant
                self.capacity == old(self).capacity,
                before == old(self)@,
                left <= count,
                values@.len() == count - left,
                values@.len() <= before.len(),
                self.data@ == before.take(before.len() - values@.len()),
                values@ == top_first(before, values@.len() as int),
            decreases left,
        {
            let ghost so_far = values@;
            match self.data.pop() {
                Some(value) => {
                    values.push(value);
                    proof {
                        assert(self.data@ =~= before.take(before.len() - values@.len()));
                        assert(values@ =~= top_first(before, values@.len() as int));
                    }
                },
                None => {},
            }
            left -= 1;
        }
        values
    }
}

impl<T> Default for Stack<T> {
    fn default() -> (stack: Self)
        ensures
            stack@.len() == 0,
            stack.capacity == DEFAULT_CAPACITY,
    {
        Stack::new(DEFAULT_CAPACITY)
    }
}

} // verus!
