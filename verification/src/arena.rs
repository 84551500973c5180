//! Fixed-capacity session storage.
//!
//! A value is the bit pattern of an IEEE-754 single, so moving values around
//! is exact and equality of values is equality of bits.
use vstd::prelude::*;

verus! {

pub const MAX_VALUES: usize = 4096;

#[derive(Debug, PartialEq, Eq, Structural)]
pub enum ArenaError {
    /// The session input does not fit.
    InputTooLarge { required: usize, capacity: usize },
    /// The session output does not fit.
    OutputTooLarge { required: usize, capacity: usize },
}

/// One input buffer and one output buffer of fixed capacity, each filled up to
/// a length.
pub struct SessionArena {
    input: [u32; MAX_VALUES],
    output: [u32; MAX_VALUES],
    input_len: usize,
    output_len: usize,
}

impl SessionArena {
    /// The lengths are within the capacity.
    pub closed spec fn well_formed(&self) -> bool {
        self.input_len <= MAX_VALUES && self.output_len <= MAX_VALUES
    }

    /// The loaded input values.
    pub closed spec fn input_values(&self) -> Seq<u32> {
        self.input@.take(self.input_len as int)
    }

    /// The output values.
    pub closed spec fn output_values(&self) -> Seq<u32> {
        self.output@.take(self.output_len as int)
    }

    /// Everything in the output buffer, values past the length included.
    pub closed spec fn output_buffer(&self) -> Seq<u32> {
        self.output@
    }

    /// No session holds more values than the capacity.
    pub proof fn within_capacity(&self)
        requires
            self.well_formed(),
        ensures
            self.input_values().len() <= MAX_VALUES,
            self.output_values().len() <= MAX_VALUES,
            self.output_buffer().len() == MAX_VALUES,
    {
    }

    /// An empty arena, its buffers filled with zeros.
    pub fn new() -> (arena: Self)
        ensures
            arena.well_formed(),
            arena.input_values() == Seq::<u32>::empty(),
            arena.output_values() == Seq::<u32>::empty(),
            arena.output_buffer() == Seq::new(MAX_VALUES as nat, |i: int| 0u32),
    {
        SessionArena {
            input: [0;MAX_VALUES],
            output: [0;MAX_VALUES],
            input_len: 0,
            output_len: 0,
        }
    }

    /// Replaces the input by `values`, if they fit.
    pub fn load_input(&mut self, values: &[u32]) -> (result: Result<(), ArenaError>)
        requires
            old(self).well_formed(),
        ensures
            final(self).well_formed(),
            values@.len() <= MAX_VALUES ==> {
                &&& result == Ok::<_, ArenaError>(())
                &&& final(self).input_values() == values@
                &&& final(self).output_values() == old(self).output_values()
                &&& final(self).output_buffer() == old(self).output_buffer()
            },
            values@.len() > MAX_VALUES ==> {
                &&& result == Err::<(), _>(
                    ArenaError::InputTooLarge {
                        required: values@.len() as usize,
                        capacity: MAX_VALUES,
                    },
                )
                &&& *final(self) == *old(self)
            },
    {
        let count: usize = values.len();
        if count > MAX_VALUES {
            return Err(ArenaError::InputTooLarge { required: count, capacity: MAX_VALUES });
        }
        let whole: &mut [u32] = &mut self.input;
        copy_values(values, whole);
        self.input_len = count;
        assert(self.input_values() =~= values@);
        Ok(())
    }

    /// The loaded input values.
    pub fn input(&self) -> (values: &[u32])
        requires
            self.well_formed(),
        ensures
            values@ == self.input_values(),
            values@.len() <= MAX_VALUES,
    {
        &self.input[0..self.input_len]
    }

    /// The output values.
    pub fn output(&self) -> (values: &[u32])
        requires
            self.well_formed(),
        ensures
            values@ == self.output_values(),
            values@.len() <= MAX_VALUES,
    {
        &self.output[0..self.output_len]
    }

    /// Sets the output length and hands out the output for writing.
    pub fn output_mut(&mut self, length: usize) -> (result: Result<&mut [u32], ArenaError>)
        requires
            old(self).well_formed(),
        ensures
            final(self).well_formed(),
            final(self).input_values() == old(self).input_values(),
            match result {
                Ok(slice) => {
                    &&& length <= MAX_VALUES
                    &&& slice@ == old(self).output_buffer().take(length as int)
                    &&& slice@.len() == length
                    &&& final(slice)@.len() == length ==> {
                        &&& final(self).output_values() == final(slice)@
                        &&& final(self).output_buffer() == final(slice)@
                            + old(self).output_buffer().skip(length as int)
                    }
                },
                Err(error) => {
                    &&& length > MAX_VALUES
                    &&& error == (ArenaError::OutputTooLarge {
                        required: length,
                        capacity: MAX_VALUES,
                    })
                    &&& *final(self) == *old(self)
                },
            },
    {
        if length > MAX_VALUES {
            return Err(ArenaError::OutputTooLarge { required: length, capacity: MAX_VALUES });
        }
        self.output_len = length;
        let whole: &mut [u32] = &mut self.output;
        let (front, _back) = whole.split_at_mut(length);
        Ok(front)
    }

    /// Sets the output length and hands out the input for reading together
    /// with the output for writing; the two buffers are disjoint.
    pub fn input_and_output_mut(&mut self, length: usize) -> (result: Result<
        (&[u32], &mut [u32]),
        ArenaError,
    >)
        requires
            old(self).well_formed(),
        ensures
            final(self).well_formed(),
            final(self).input_values() == old(self).input_values(),
            match result {
                Ok((values, slice)) => {
                    &&& length <= MAX_VALUES
                    &&& values@ == old(self).input_values()
                    &&& slice@ == old(self).output_buffer().take(length as int)
                    &&& slice@.len() == length
                    &&& final(slice)@.len() == length ==> {
                        &&& final(self).output_values() == final(slice)@
                        &&& final(self).output_buffer() == final(slice)@
                            + old(self).output_buffer().skip(length as int)
                    }
                },
                Err(error) => {
                    &&& length > MAX_VALUES
                    &&& error == (ArenaError::OutputTooLarge {
                        required: length,
                        capacity: MAX_VALUES,
                    })
                    &&& *final(self) == *old(self)
                },
            },
    {
        if length > MAX_VALUES {
            return Err(ArenaError::OutputTooLarge { required: length, capacity: MAX_VALUES });
        }
        self.output_len = length;
        let values: &[u32] = &self.input[0..self.input_len];
        let whole: &mut [u32] = &mut self.output;
        let (front, _back) = whole.split_at_mut(length);
        Ok((values, front))
    }
}

impl Default for SessionArena {
    fn default() -> (arena: Self)
        ensures
            arena.well_formed(),
            arena.input_values() == Seq::<u32>::empty(),
            arena.output_values() == Seq::<u32>::empty(),
            arena.output_buffer() == Seq::new(MAX_VALUES as nat, |i: int| 0u32),
    {
        SessionArena::new()
    }
}

/// Copies `source` over the front of `target`.
pub fn copy_values(source: &[u32], target: &mut [u32])
    requires
        source@.len() <= old(target)@.len(),
    ensures
        final(target)@ == source@ + old(target)@.skip(source@.len() as int),
{
    let mut index: usize = 0;
    let ghost before = target@;
    while index < source.len()
        invariant
            index <= source@.len() <= target@.len(),
            target@.len() == before.len(),
            forall|i: int| 0 <= i < index ==> target@[i] == source@[i],
            forall|i: int| index <= i < before.len() ==> target@[i] == before[i],
        decreases source@.len() - index,
    {
        target[index] = source[index];
        index += 1;
    }
    assert(target@ =~= source@ + before.skip(source@.len() as int));
}

} // verus!
