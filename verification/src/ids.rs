//! Identifier and amount types shared by the whole model.

use vstd::prelude::*;

verus! {

/// Number of CPUs, as used when a uniform topology is described.
pub type NumOfCpus = u32;

/// Number of worker nodes that a task asks for.
pub type NumOfNodes = u32;

/// Count of fungible units of a generic resource.
pub type GenericResourceAmount = u64;

/// Priority of a task; larger values are scheduled first.
pub type Priority = i32;

/// Number of tasks of a job.
pub type JobTaskCount = u32;

/// Identifier of one logical CPU of a worker.
#[derive(Clone, Copy, Debug, PartialEq, Eq, Structural, PartialOrd, Ord, Hash)]
pub struct CpuId(pub u32);

impl CpuId {
    pub fn new(value: u32) -> (id: Self)
        ensures
            id.0 == value,
    {
        CpuId(value)
    }

    pub fn as_num(&self) -> (value: u32)
        ensures
            value == self.0,
    {
        self.0
    }
}

impl From<u32> for CpuId {
    fn from(value: u32) -> (id: Self) {
        CpuId(value)
    }
}

impl vstd::std_specs::convert::FromSpecImpl<u32> for CpuId {
    open spec fn obeys_from_spec() -> bool {
        true
    }

    open spec fn from_spec(value: u32) -> Self {
        CpuId(value)
    }
}

/// Identifier of one discrete unit of a generic resource, such as one GPU.
#[derive(Clone, Copy, Debug, PartialEq, Eq, Structural, PartialOrd, Ord, Hash)]
pub struct GenericResourceIndex(pub u32);

impl GenericResourceIndex {
    pub fn new(value: u32) -> (id: Self)
        ensures
            id.0 == value,
    {
        GenericResourceIndex(value)
    }

    pub fn as_num(&self) -> (value: u32)
        ensures
            value == self.0,
    {
        self.0
    }
}

impl From<u32> for GenericResourceIndex {
    fn from(value: u32) -> (id: Self) {
        GenericResourceIndex(value)
    }
}

impl vstd::std_specs::convert::FromSpecImpl<u32> for GenericResourceIndex {
    open spec fn obeys_from_spec() -> bool {
        true
    }

    open spec fn from_spec(value: u32) -> Self {
        GenericResourceIndex(value)
    }
}

/// Identifier of a worker.
#[derive(Clone, Copy, Debug, PartialEq, Eq, Structural, PartialOrd, Ord, Hash)]
pub struct WorkerId(pub u32);

impl WorkerId {
    pub fn new(value: u32) -> (id: Self)
        ensures
            id.0 == value,
    {
        WorkerId(value)
    }

    pub fn as_num(&self) -> (value: u32)
        ensures
            value == self.0,
    {
        self.0
    }
}

/// Identifier of a task inside its job.
#[derive(Clone, Copy, Debug, PartialEq, Eq, Structural, PartialOrd, Ord, Hash)]
pub struct JobTaskId(pub u32);

impl JobTaskId {
    pub fn new(value: u32) -> (id: Self)
        ensures
            id.0 == value,
    {
        JobTaskId(value)
    }

    pub fn as_num(&self) -> (value: u32)
        ensures
            value == self.0,
    {
        self.0
    }
}

} // verus!
