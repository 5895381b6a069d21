use vstd::prelude::*;

use crate::errors::ForthError;

verus! {

/// Number of values in the default stack: 65536 bytes worth of slots, two
/// bytes for each signed 16-bit value.
pub const DEFAULT_CAPACITY: usize = 65536 / 2;

/// A fixed-capacity stack of signed 16-bit values with last-in-first-out
/// discipline.  The capacity is fixed at construction; the length never
/// exceeds it.  Overflow and underflow are reported as errors, never as
/// panics.
pub struct Stack {
    stack: Vec<i16>,
    max_size: usize,
}

impl View for Stack {
    type V = Seq<i16>;

    /// The stack contents, bottom to top.
    closed spec fn view(&self) -> Seq<i16> {
        self.stack@
    }
}

impl Stack {
    /// The greatest number of values this stack can hold.
    pub closed spec fn capacity(self) -> nat {
        self.max_size as nat
    }

    /// A new, empty stack that holds at most `max_size` values.
    pub fn new(max_size: usize) -> (s: Stack)
        ensures
            s@ == Seq::<i16>::empty(),
            s.capacity() == max_size as nat,
    {
        Stack { stack: Vec::with_capacity(max_size), max_size }
    }

    /// A new, empty stack with the default capacity.
    pub fn default() -> (s: Self)
        ensures
            s@ == Seq::<i16>::empty(),
            s.capacity() == DEFAULT_CAPACITY as nat,
    {
        Self::new(DEFAULT_CAPACITY)
    }

    /// The number of values currently on the stack.
    pub fn len(&self) -> (n: usize)
        ensures
            n == self@.len(),
    {
        self.stack.len()
    }

    /// Appends `value` at the top; fails with `StackOverflow`, leaving the
    /// stack unchanged, when the stack is full.
    pub fn push(&mut self, value: i16) -> (r: Result<(), ForthError>)
        ensures
            final(self).capacity() == old(self).capacity(),
            old(self)@.len() >= old(self).capacity() ==> r == Err::<(), ForthError>(
                ForthError::StackOverflow,
            ) && final(self)@ == old(self)@,
            old(self)@.len() < old(self).capacity() ==> r == Ok::<(), ForthError>(())
                && final(self)@ == old(self)@.push(value),
    {
        if self.stack.len() >= self.max_size {
            return Err(ForthError::StackOverflow);
        }
        self.stack.push(value);
        Ok(())
    }

    /// Removes and returns the topmost value; fails with `StackUnderflow`,
    /// leaving the stack unchanged, when the stack is empty.
    pub fn pop(&mut self) -> (r: Result<i16, ForthError>)
        ensures
            final(self).capacity() == old(self).capacity(),
            old(self)@.len() == 0 ==> r == Err::<i16, ForthError>(ForthError::StackUnderflow)
                && final(self)@ == old(self)@,
            old(self)@.len() > 0 ==> r == Ok::<i16, ForthError>(old(self)@.last()) && final(self)@
                == old(self)@.drop_last(),
    {
        match self.stack.pop() {
            Some(v) => Ok(v),
            None => Err(ForthError::StackUnderflow),
        }
    }

    /// Whether the stack holds no values.
    pub fn is_empty(&self) -> (b: bool)
        ensures
            b == (self@.len() == 0),
    {
        self.stack.is_empty()
    }

    /// Returns the full contents, bottom to top, and resets the stack to
    /// empty.
    pub fn get_contents(&mut self) -> (contents: Vec<i16>)
        ensures
            contents@ == old(self)@,
            final(self)@ == Seq::<i16>::empty(),
            final(self).capacity() == old(self).capacity(),
    {
        let mut taken: Vec<i16> = Vec::new();
        core::mem::swap(&mut self.stack, &mut taken);
        taken
    }
}

/// The stack after the values of `vs`, in order, have been pushed onto `s`:
/// this is what repeated `push` calls build, by `push`'s contract.
pub open spec fn push_all(s: Seq<i16>, vs: Seq<i16>) -> Seq<i16>
    decreases vs.len(),
{
    if vs.len() == 0 {
        s
    } else {
        push_all(s.push(vs.first()), vs.drop_first())
    }
}

/// The stack after `n` values have been popped from `s`: this is what
/// repeated `pop` calls leave, by `pop`'s contract.
pub open spec fn pop_n(s: Seq<i16>, n: int) -> Seq<i16>
    decreases n,
{
    if n <= 0 {
        s
    } else {
        pop_n(s.drop_last(), n - 1)
    }
}

proof fn lemma_push_all_is_append(s: Seq<i16>, vs: Seq<i16>)
    ensures
        push_all(s, vs) == s + vs,
    decreases vs.len(),
{
    if vs.len() == 0 {
        assert(push_all(s, vs) == s);
        assert(s + vs =~= s);
    } else {
        lemma_push_all_is_append(s.push(vs.first()), vs.drop_first());
        assert(s.push(vs.first()) + vs.drop_first() =~= s + vs);
    }
}

proof fn lemma_pop_n_is_take(s: Seq<i16>, n: int)
    requires
        0 <= n <= s.len(),
    ensures
        pop_n(s, n) == s.take(s.len() - n),
    decreases n,
{
    if n <= 0 {
        assert(s.take(s.len() - 0) =~= s);
    } else {
        lemma_pop_n_is_take(s.drop_last(), n - 1);
        assert(s.drop_last() =~= s.take(s.len() - 1));
        assert(s.take(s.len() - 1).take(s.len() - n) =~= s.take(s.len() - n));
    }
}

/// The last-in-first-out law.  Pushing the values of `vs` onto a stack
/// holding `s` (each within capacity, so that `push`'s contract says each one
/// appends) and then popping the same count yields the values of `vs` in
/// reverse order — the `j`-th pop returns `vs[vs.len() - 1 - j]` — and leaves
/// the stack holding `s` again.
pub proof fn lemma_stack_lifo(s: Seq<i16>, vs: Seq<i16>)
    ensures
        push_all(s, vs) == s + vs,
        forall|j: int|
            0 <= j < vs.len() ==> pop_n(push_all(s, vs), j).last() == vs[vs.len() - 1 - j],
        pop_n(push_all(s, vs), vs.len() as int) == s,
{
    lemma_push_all_is_append(s, vs);
    assert forall|j: int| 0 <= j < vs.len() implies pop_n(push_all(s, vs), j).last() == vs[vs.len()
        - 1 - j] by {
        lemma_pop_n_is_take(s + vs, j);
        assert((s + vs).take(s.len() + vs.len() - j).last() == vs[vs.len() - 1 - j]);
    }
    lemma_pop_n_is_take(s + vs, vs.len() as int);
    assert((s + vs).take(s.len() as int) =~= s);
}

} // verus!
