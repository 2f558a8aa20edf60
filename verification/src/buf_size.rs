//! The buffer sizes a host announces to a plugin: block lengths and the size of sequences.
use vstd::prelude::*;

verus! {

/// The minimum block length, in frames.
#[derive(Debug, Clone, Copy, PartialEq, Eq)]
pub struct MinBlockLength(pub i32);

/// The maximum block length, in frames.
#[derive(Debug, Clone, Copy, PartialEq, Eq)]
pub struct MaxBlockLength(pub i32);

/// The nominal block length, in frames.
#[derive(Debug, Clone, Copy, PartialEq, Eq)]
pub struct NominalBlockLength(pub i32);

/// The size of sequence buffers, in bytes.
#[derive(Debug, Clone, Copy, PartialEq, Eq)]
pub struct SequenceSize(pub i32);

impl MinBlockLength {
    /// The value, as an unsigned number.
    pub fn get(&self) -> (r: u32)
        ensures
            r == self.0 as u32,
    {
        self.0 as u32
    }

    /// The option from the value of its `Int` atom.
    pub fn from_option_value(value: i32) -> (r: Option<Self>)
        ensures
            r == Some(MinBlockLength(value)),
    {
        Some(MinBlockLength(value))
    }

    /// The value of the option's `Int` atom.
    pub fn as_option_value(&self) -> (r: i32)
        ensures
            r == self.0,
    {
        self.0
    }
}

impl MaxBlockLength {
    /// The value, as an unsigned number.
    pub fn get(&self) -> (r: u32)
        ensures
            r == self.0 as u32,
    {
        self.0 as u32
    }

    /// The option from the value of its `Int` atom.
    pub fn from_option_value(value: i32) -> (r: Option<Self>)
        ensures
            r == Some(MaxBlockLength(value)),
    {
        Some(MaxBlockLength(value))
    }

    /// The value of the option's `Int` atom.
    pub fn as_option_value(&self) -> (r: i32)
        ensures
            r == self.0,
    {
        self.0
    }
}

impl NominalBlockLength {
    /// The value, as an unsigned number.
    pub fn get(&self) -> (r: u32)
        ensures
            r == self.0 as u32,
    {
        self.0 as u32
    }

    /// The option from the value of its `Int` atom.
    pub fn from_option_value(value: i32) -> (r: Option<Self>)
        ensures
            r == Some(NominalBlockLength(value)),
    {
        Some(NominalBlockLength(value))
    }

    /// The value of the option's `Int` atom.
    pub fn as_option_value(&self) -> (r: i32)
        ensures
            r == self.0,
    {
        self.0
    }
}

impl SequenceSize {
    /// The value, as an unsigned number.
    pub fn get(&self) -> (r: u32)
        ensures
            r == self.0 as u32,
    {
        self.0 as u32
    }

    /// The option from the value of its `Int` atom.
    pub fn from_option_value(value: i32) -> (r: Option<Self>)
        ensures
            r == Some(SequenceSize(value)),
    {
        Some(SequenceSize(value))
    }

    /// The value of the option's `Int` atom.
    pub fn as_option_value(&self) -> (r: i32)
        ensures
            r == self.0,
    {
        self.0
    }
}

/// The buffer sizes announced by the host; each is absent if the host did not announce it.
#[derive(Debug, Clone, Copy, PartialEq, Eq)]
pub struct BufferSizes {
    pub min_block_length: Option<MinBlockLength>,
    pub max_block_length: Option<MaxBlockLength>,
    pub nominal_block_length: Option<NominalBlockLength>,
    pub sequence_size: Option<SequenceSize>,
}

impl Default for BufferSizes {
    fn default() -> (r: Self)
        ensures
            r.min_block_length is None,
            r.max_block_length is None,
            r.nominal_block_length is None,
            r.sequence_size is None,
    {
        BufferSizes {
            min_block_length: None,
            max_block_length: None,
            nominal_block_length: None,
            sequence_size: None,
        }
    }
}

} // verus!
