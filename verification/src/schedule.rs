//! Schedules: the work items of a plan and the buffers they touch.

use vstd::prelude::*;

use crate::device::{DeviceSpec, ScalarDType};
use crate::graph::Graph;
use crate::vars::VarVals;

verus! {

/// A device allocation, or a view into one.
#[derive(Debug, PartialEq, Eq)]
pub struct Buffer {
    /// The identity of this buffer handle.
    pub id: u64,
    /// The identity of the allocation behind it.
    pub storage_id: u64,
    /// Where in the allocation it starts, in bytes.
    pub offset: usize,
    /// Its size in bytes.
    pub size: usize,
    pub dtype: ScalarDType,
    pub device: DeviceSpec,
}

impl Buffer {
    /// The same buffer.
    pub fn copy(&self) -> (copy: Buffer)
        ensures
            copy == *self,
    {
        Buffer {
            id: self.id,
            storage_id: self.storage_id,
            offset: self.offset,
            size: self.size,
            dtype: self.dtype,
            device: self.device.copy(),
        }
    }

    /// Whether two buffers are one in a plan: the same bytes of one handle,
    /// read as one element type.
    pub open spec fn same_storage(&self, other: &Buffer) -> bool {
        self.id == other.id && self.offset == other.offset && self.size == other.size && self.dtype == other.dtype
    }

    /// Whether two buffers are one in a plan.
    pub fn shares_storage(&self, other: &Buffer) -> (same: bool)
        ensures
            same == self.same_storage(other),
    {
        self.id == other.id && self.offset == other.offset && self.size == other.size && self.dtype == other.dtype
    }
}

/// One call of a schedule: a kernel, a copy or a custom function with the
/// buffers it is applied to.
#[derive(Debug, PartialEq, Eq)]
pub struct ScheduleItem {
    /// The identity of the callable.
    pub kernel_id: u64,
    pub ast: Graph,
    pub buffers: Vec<Buffer>,
    /// The graph node that each buffer was registered under.
    pub buffer_uop_ids: Vec<u64>,
    /// The callables that run before.
    pub dependencies: Vec<u64>,
    /// The items that run before.
    pub instance_dependencies: Vec<usize>,
    /// Variables with the values that the schedule gave them.
    pub fixedvars: VarVals,
    /// The variables among them that count schedule loops.
    pub loop_var_names: Vec<String>,
    /// The variables that the runtime reads for the call, by their number in the
    /// caller's store.
    pub runtime_vars: u64,
    /// What the call came from, by its number in the caller's store.
    pub origin: u64,
}

impl ScheduleItem {
    pub open spec fn wf(&self) -> bool {
        self.ast.wf() && self.fixedvars.wf()
    }
}

/// A copy of a list of numbers.
pub fn copy_u64s(list: &Vec<u64>) -> (copy: Vec<u64>)
    ensures
        copy@ == list@,
{
    let mut copy: Vec<u64> = Vec::new();
    let mut i: usize = 0;
    while i < list.len()
        invariant
            i <= list@.len(),
            copy@ == list@.subrange(0, i as int),
        decreases list@.len() - i,
    {
        copy.push(list[i]);
        i = i + 1;
    }
    assert(copy@ =~= list@);
    copy
}

/// A copy of a list of numbers.
pub fn copy_usizes(list: &Vec<usize>) -> (copy: Vec<usize>)
    ensures
        copy@ == list@,
{
    let mut copy: Vec<usize> = Vec::new();
    let mut i: usize = 0;
    while i < list.len()
        invariant
            i <= list@.len(),
            copy@ == list@.subrange(0, i as int),
        decreases list@.len() - i,
    {
        copy.push(list[i]);
        i = i + 1;
    }
    assert(copy@ =~= list@);
    copy
}

} // verus!
