//! A cursor over an array of the host runtime.

use vstd::prelude::*;
use crate::call::{push_array, push_call, NamedCall};
use crate::handle::{NapiEnv, NapiValue};

verus! {

/// A forward-only cursor over an array value.
///
/// The cursor holds the length that the array had when the cursor was made
/// and the index that it reads next. It hands out indices; the element at an
/// index is read from the host by the embedder. Once the index has reached
/// the length the cursor is spent, and stays so.
#[derive(Clone, Copy, Debug, PartialEq, Eq, Structural)]
pub struct NapiArray {
    pub env: NapiEnv,
    pub array: NapiValue,
    pub current_index: u32,
    pub length: u32,
}

impl NapiArray {
    /// The cursor over an array of the given length, before anything is read.
    pub open spec fn spec_from_existing(env: NapiEnv, array: NapiValue, length: u32) -> NapiArray {
        NapiArray { env, array, current_index: 0, length }
    }

    /// The cursor over an array that was just created: it takes the array
    /// for empty, whatever room the array was created with.
    pub open spec fn spec_with_capacity(env: NapiEnv, array: NapiValue) -> NapiArray {
        NapiArray { env, array, current_index: 0, length: 0 }
    }

    /// One step of the cursor: the index that it yields, if any, and the
    /// cursor after the step.
    pub open spec fn spec_next(self) -> (Option<u32>, NapiArray) {
        if self.current_index >= self.length {
            (None, self)
        } else {
            (
                Some(self.current_index),
                NapiArray { current_index: (self.current_index + 1) as u32, ..self },
            )
        }
    }

    /// The cursor after `steps` steps.
    pub open spec fn advance(self, steps: nat) -> NapiArray
        decreases steps,
    {
        if steps == 0 {
            self
        } else {
            self.spec_next().1.advance((steps - 1) as nat)
        }
    }

    /// The indices that the cursor has yet to yield, in the order in which
    /// it yields them.
    pub open spec fn pending(self) -> Seq<u32> {
        if self.current_index >= self.length {
            Seq::empty()
        } else {
            Seq::new(
                (self.length - self.current_index) as nat,
                |i: int| (self.current_index + i) as u32,
            )
        }
    }

    /// Wraps an array that exists already. `length` is the length that the
    /// host reports for it now; later changes of the array are not seen.
    pub fn from_existing(env: NapiEnv, array: NapiValue, length: u32) -> (cursor: NapiArray)
        ensures
            cursor == NapiArray::spec_from_existing(env, array, length),
    {
        NapiArray { env, array, length, current_index: 0 }
    }

    /// Wraps an array that was just created with some capacity. Nothing was
    /// pushed yet, so the cursor yields nothing.
    pub fn with_capacity(env: NapiEnv, array: NapiValue) -> (cursor: NapiArray)
        ensures
            cursor == NapiArray::spec_with_capacity(env, array),
    {
        NapiArray { env, array, length: 0, current_index: 0 }
    }

    /// Yields the index of the element to read next and moves on, or `None`
    /// once the cursor is spent.
    pub fn next(&mut self) -> (index: Option<u32>)
        ensures
            (index, *final(self)) == old(self).spec_next(),
    {
        if self.current_index >= self.length {
            return None;
        }
        let index = self.current_index;
        self.current_index = index + 1;
        Some(index)
    }

    /// The length that the array had when the cursor was made.
    pub fn len(&self) -> (length: usize)
        ensures
            length == self.length,
    {
        self.length as usize
    }

    /// Says how `elem` is appended to the array. The cursor is left as it
    /// is: its length is not moved, so it will not yield the new element.
    pub fn push(&mut self, elem: NapiValue) -> (call: NamedCall)
        ensures
            *final(self) == *old(self),
            call@ == push_call(old(self).array, elem),
    {
        push_array(self.array, elem)
    }

    /// A step yields the first pending index and leaves the others pending;
    /// with nothing pending it yields nothing and changes nothing.
    pub proof fn lemma_next_takes_first_pending(self)
        ensures
            self.pending().len() > 0 ==> self.spec_next().0 == Some(self.pending()[0]),
            self.pending().len() > 0 ==> self.spec_next().1.pending()
                == self.pending().drop_first(),
            self.pending().len() == 0 ==> self.spec_next() == (None::<u32>, self),
    {
        if self.current_index < self.length {
            assert(self.spec_next().1.pending() =~= self.pending().drop_first());
        }
    }

    /// A spent cursor stays spent: however often it is stepped, it yields
    /// nothing and does not change.
    pub proof fn lemma_spent_stays_spent(self, steps: nat)
        requires
            self.current_index >= self.length,
        ensures
            self.advance(steps) == self,
            self.advance(steps).spec_next().0 == None::<u32>,
        decreases steps,
    {
        if steps > 0 {
            self.lemma_spent_stays_spent((steps - 1) as nat);
        }
    }

    /// After `steps` steps the cursor stands `steps` further, or at the
    /// length where that is nearer.
    pub proof fn lemma_advance(self, steps: nat)
        requires
            self.current_index <= self.length,
        ensures
            self.current_index + steps <= self.length ==> self.advance(steps) == (NapiArray {
                current_index: (self.current_index + steps) as u32,
                ..self
            }),
            self.current_index + steps > self.length ==> self.advance(steps) == (NapiArray {
                current_index: self.length,
                ..self
            }),
        decreases steps,
    {
        if steps > 0 {
            self.spec_next().1.lemma_advance((steps - 1) as nat);
        }
    }

    /// A cursor over an array of length `length` yields the indices
    /// `0, 1, ..` up to the length, each once and in this order, and nothing
    /// from then on.
    pub proof fn lemma_from_existing_yields_each_index(
        env: NapiEnv,
        array: NapiValue,
        length: u32,
        steps: nat,
    )
        ensures
            NapiArray::spec_from_existing(env, array, length).pending() == Seq::new(
                length as nat,
                |i: int| i as u32,
            ),
            steps < length ==> NapiArray::spec_from_existing(env, array, length).advance(
                steps,
            ).spec_next().0 == Some(steps as u32),
            steps >= length ==> NapiArray::spec_from_existing(env, array, length).advance(
                steps,
            ).spec_next().0 == None::<u32>,
    {
        let cursor = NapiArray::spec_from_existing(env, array, length);
        cursor.lemma_advance(steps);
        assert(cursor.pending() =~= Seq::new(length as nat, |i: int| i as u32));
    }

    /// A cursor over a freshly created array yields nothing, at the first
    /// step and at every later one.
    pub proof fn lemma_with_capacity_yields_nothing(env: NapiEnv, array: NapiValue, steps: nat)
        ensures
            NapiArray::spec_with_capacity(env, array).pending() == Seq::<u32>::empty(),
            NapiArray::spec_with_capacity(env, array).advance(steps).spec_next().0 == None::<u32>,
    {
        NapiArray::spec_with_capacity(env, array).lemma_spent_stays_spent(steps);
    }
}

} // verus!
