//! Assembling an execution plan from a schedule.

use std::collections::{HashMap, HashSet};

use vstd::prelude::*;
use vstd::string::*;

use crate::device::DeviceSpec;
use crate::error::Error;
use crate::graph::{effect_node, runtime_effect_ast, same_nodes, Graph, Node, Op};
use crate::program::{
    input_indices_from_program_metadata, inputs_ok, inputs_resolve, output_indices_from_program_metadata,
    outputs_ok, outputs_resolve,
};
use crate::schedule::{copy_u64s, copy_usizes, Buffer, ScheduleItem};
use crate::text::{dec, dec_list, dec_list64_string, dec_list_string, dec_string, nats, nats64};
use crate::vars::{lookup, str_eq, try_bind_var_val, VarVals};

verus! {

// ---------------------------------------------------------------------------
// Variables
// ---------------------------------------------------------------------------

/// The bounds that an operation declares for variable `name`.
pub open spec fn declared_bounds(op: Op, name: Seq<char>) -> Option<(i64, i64)> {
    match op {
        Op::DefineVar { name: declared, min, max } => if declared@ == name {
            Some((min, max))
        } else {
            None
        },
        Op::Param { arg } => if op.var_name() == Some(name) {
            arg.bounds
        } else {
            None
        },
        _ => None,
    }
}

/// The bounds that the first `k` nodes declare for `name`: a later declaration
/// holds over an earlier one.
pub open spec fn bounds_of(nodes: Seq<Node>, k: nat, name: Seq<char>) -> Option<(i64, i64)>
    decreases k,
{
    if k == 0 {
        None
    } else if declared_bounds(nodes[k - 1].op, name) is Some {
        declared_bounds(nodes[k - 1].op, name)
    } else {
        bounds_of(nodes, (k - 1) as nat, name)
    }
}

/// The number in bounds that is closest to 0.
pub open spec fn closest_to_zero(min: i64, max: i64) -> i64 {
    if min > 0 {
        min
    } else if max < 0 {
        max
    } else {
        0
    }
}

/// The value that a kernel's variable starts with: the one the schedule fixed;
/// else 0 for the core number; else the value in bounds that is closest to 0;
/// else 0.
pub open spec fn initial_value(item: &ScheduleItem, name: Seq<char>) -> i64 {
    match lookup(item.fixedvars@, name) {
        Some(value) => value,
        None => if name == "core_id"@ {
            0
        } else {
            match bounds_of(item.ast.nodes@, item.ast.nodes@.len(), name) {
                Some((min, max)) => closest_to_zero(min, max),
                None => 0,
            }
        },
    }
}

fn find_bounds(ast: &Graph, name: &str) -> (bounds: Option<(i64, i64)>)
    ensures
        bounds == bounds_of(ast.nodes@, ast.nodes@.len(), name@),
{
    let mut k: usize = ast.nodes.len();
    while k > 0
        invariant
            k <= ast.nodes@.len(),
            bounds_of(ast.nodes@, ast.nodes@.len(), name@) == bounds_of(ast.nodes@, k as nat, name@),
        decreases k,
    {
        match &ast.nodes[k - 1].op {
            Op::DefineVar { name: declared, min, max } => {
                if str_eq(declared.as_str(), name) {
                    return Some((*min, *max));
                }
            }
            Op::Param { arg } => {
                if let Some(declared) = ast.nodes[k - 1].op.variable() {
                    if str_eq(declared, name) && arg.bounds.is_some() {
                        return arg.bounds;
                    }
                }
            }
            _ => {}
        }
        k = k - 1;
    }
    None
}

/// The value that each of a kernel's variables starts with.
pub fn initial_kernel_var_values(item: &ScheduleItem, var_names: &Vec<String>) -> (values: Vec<i64>)
    requires
        item.wf(),
    ensures
        values@.len() == var_names@.len(),
        forall|i: int|
            #![trigger values@[i]]
            0 <= i < var_names@.len() ==> values@[i] == initial_value(item, var_names@[i]@),
{
    let mut values: Vec<i64> = Vec::new();
    let mut i: usize = 0;
    while i < var_names.len()
        invariant
            item.wf(),
            i <= var_names@.len(),
            values@.len() == i,
            forall|k: int|
                #![trigger values@[k]]
                0 <= k < i ==> values@[k] == initial_value(item, var_names@[k]@),
        decreases var_names@.len() - i,
    {
        let name = var_names[i].as_str();
        let value = match item.fixedvars.get(name) {
            Some(value) => value,
            None => {
                if str_eq(name, "core_id") {
                    0
                } else {
                    match find_bounds(&item.ast, name) {
                        Some((min, max)) => if min > 0 {
                            min
                        } else if max < 0 {
                            max
                        } else {
                            0
                        },
                        None => 0,
                    }
                }
            }
        };
        values.push(value);
        i = i + 1;
    }
    values
}

/// Whether one of the first `k` names is `name`.
pub open spec fn names_hold(names: Seq<String>, k: int, name: Seq<char>) -> bool {
    exists|i: int| #![trigger names[i]] 0 <= i < k && names[i]@ == name
}

/// The variables of an item that its caller may not set: the counters of
/// schedule loops and the number of the device.
pub open spec fn is_locked(item: &ScheduleItem, name: Seq<char>) -> bool {
    names_hold(item.loop_var_names@, item.loop_var_names@.len() as int, name) || name == "_device_num"@
}

/// The values of the variables that a caller may not set: each loop counter
/// and the device number, as far as the schedule fixed them.
pub fn collect_non_overridable_fixedvars(item: &ScheduleItem) -> (locked: VarVals)
    requires
        item.wf(),
    ensures
        locked.wf(),
        forall|name: Seq<char>| #[trigger]
            lookup(locked@, name) == if is_locked(item, name) {
                lookup(item.fixedvars@, name)
            } else {
                None
            },
{
    let mut locked = VarVals::new();
    let mut i: usize = 0;
    while i < item.loop_var_names.len()
        invariant
            item.wf(),
            i <= item.loop_var_names@.len(),
            locked.wf(),
            forall|name: Seq<char>| #[trigger]
                lookup(locked@, name) == if names_hold(item.loop_var_names@, i as int, name) {
                    lookup(item.fixedvars@, name)
                } else {
                    None
                },
        decreases item.loop_var_names@.len() - i,
    {
        let name = item.loop_var_names[i].as_str();
        let ghost before = locked@;
        if let Some(value) = item.fixedvars.get(name) {
            assert(lookup(before, name@) is Some ==> lookup(before, name@) == Some(value));
            let _ = try_bind_var_val(&mut locked, name, value);
            assert(lookup(locked@, name@) == Some(value));
            assert(forall|other: Seq<char>| other != name@ ==> lookup(locked@, other) == lookup(before, other));
        } else {
            assert(lookup(before, name@) is None);
        }
        proof {
            assert forall|other: Seq<char>| #[trigger] lookup(locked@, other) == if names_hold(
                item.loop_var_names@,
                i + 1,
                other,
            ) {
                lookup(item.fixedvars@, other)
            } else {
                None
            } by {
                if other == name@ {
                    assert(item.loop_var_names@[i as int]@ == other);
                } else {
                    assert(lookup(locked@, other) == lookup(before, other));
                    if names_hold(item.loop_var_names@, i + 1, other) {
                        let k = choose|k: int|
                            #![trigger item.loop_var_names@[k]]
                            0 <= k < i + 1 && item.loop_var_names@[k]@ == other;
                        assert(k < i);
                        assert(item.loop_var_names@[k]@ == other);
                    }
                    if names_hold(item.loop_var_names@, i as int, other) {
                        let k = choose|k: int|
                            #![trigger item.loop_var_names@[k]]
                            0 <= k < i && item.loop_var_names@[k]@ == other;
                        assert(item.loop_var_names@[k]@ == other);
                    }
                }
            }
        }
        i = i + 1;
    }
    let ghost before = locked@;
    let name = "_device_num";
    if let Some(value) = item.fixedvars.get(name) {
        assert(lookup(before, name@) is Some ==> lookup(before, name@) == Some(value));
        let _ = try_bind_var_val(&mut locked, name, value);
        assert(lookup(locked@, name@) == Some(value));
        assert(forall|other: Seq<char>| other != name@ ==> lookup(locked@, other) == lookup(before, other));
    } else {
        assert(lookup(before, name@) is None);
    }
    proof {
        assert forall|other: Seq<char>| #[trigger] lookup(locked@, other) == if is_locked(item, other) {
            lookup(item.fixedvars@, other)
        } else {
            None
        } by {
            if other != name@ {
                assert(lookup(locked@, other) == lookup(before, other));
            }
        }
    }
    locked
}

// ---------------------------------------------------------------------------
// Devices
// ---------------------------------------------------------------------------

/// The first of the first `k` devices that computes.
pub open spec fn first_computing(devices: Seq<DeviceSpec>, k: nat) -> Option<DeviceSpec>
    decreases k,
{
    if k == 0 {
        None
    } else {
        match first_computing(devices, (k - 1) as nat) {
            Some(device) => Some(device),
            None => if devices[k - 1] is Disk {
                None
            } else {
                Some(devices[k - 1])
            },
        }
    }
}

/// The devices of a list of buffers.
pub open spec fn devices_of(buffers: Seq<Buffer>) -> Seq<DeviceSpec> {
    Seq::new(buffers.len(), |i: int| buffers[i].device)
}

/// The first of the buffers' devices that computes.
pub open spec fn computing_device(buffers: Seq<Buffer>) -> Option<DeviceSpec> {
    first_computing(devices_of(buffers), buffers.len())
}

/// All buffers of the first `k` items, in order.
pub open spec fn item_buffers(items: Seq<ScheduleItem>, k: nat) -> Seq<Buffer>
    decreases k,
{
    if k == 0 {
        Seq::empty()
    } else {
        item_buffers(items, (k - 1) as nat) + items[k - 1].buffers@
    }
}

/// The buffers of a list of aliases.
pub open spec fn alias_buffers(aliases: Seq<(u64, Buffer)>) -> Seq<Buffer> {
    Seq::new(aliases.len(), |i: int| aliases[i].1)
}

proof fn lemma_first_computing_prefix(a: Seq<DeviceSpec>, b: Seq<DeviceSpec>, k: nat)
    requires
        k <= a.len(),
        k <= b.len(),
        forall|i: int| 0 <= i < k ==> a[i] == b[i],
    ensures
        first_computing(a, k) == first_computing(b, k),
    decreases k,
{
    if k > 0 {
        lemma_first_computing_prefix(a, b, (k - 1) as nat);
    }
}

proof fn lemma_computing_found(devices: Seq<DeviceSpec>, k: nat, n: nat)
    requires
        k <= n,
        first_computing(devices, k) is Some,
    ensures
        first_computing(devices, n) == first_computing(devices, k),
    decreases n - k,
{
    if k < n {
        lemma_computing_found(devices, k, (n - 1) as nat);
    }
}

proof fn lemma_computing_concat(a: Seq<Buffer>, b: Seq<Buffer>, k: nat)
    requires
        k <= b.len(),
    ensures
        first_computing(devices_of(a + b), a.len() + k) == match computing_device(a) {
            Some(device) => Some(device),
            None => first_computing(devices_of(b), k),
        },
    decreases k,
{
    if k == 0 {
        lemma_first_computing_prefix(devices_of(a), devices_of(a + b), a.len());
    } else {
        lemma_computing_concat(a, b, (k - 1) as nat);
        assert(devices_of(a + b)[a.len() + k - 1] == devices_of(b)[k - 1]);
    }
}

/// The first device that computes among those of a list of buffers.
pub fn first_device(buffers: &Vec<Buffer>) -> (device: Option<DeviceSpec>)
    ensures
        device == computing_device(buffers@),
{
    let mut i: usize = 0;
    while i < buffers.len()
        invariant
            i <= buffers@.len(),
            first_computing(devices_of(buffers@), i as nat) is None,
        decreases buffers@.len() - i,
    {
        if !buffers[i].device.is_disk() {
            let device = buffers[i].device.copy();
            proof {
                assert(first_computing(devices_of(buffers@), (i + 1) as nat) == Some(device));
                lemma_computing_found(devices_of(buffers@), (i + 1) as nat, buffers@.len());
            }
            return Some(device);
        }
        i = i + 1;
    }
    None
}

/// The device that an item's kernel is compiled for: the first of its buffers'
/// devices that computes, else the default one.
pub fn site_device(item: &ScheduleItem, default_device: &DeviceSpec) -> (device: DeviceSpec)
    ensures
        device == match computing_device(item.buffers@) {
            Some(device) => device,
            None => *default_device,
        },
{
    match first_device(&item.buffers) {
        Some(device) => device,
        None => default_device.copy(),
    }
}

/// The device of a plan: the first one that computes among those of the items'
/// buffers and then of the aliases; else the first alias's; else the default.
pub open spec fn chosen_device(
    items: Seq<ScheduleItem>,
    aliases: Seq<(u64, Buffer)>,
    default_device: DeviceSpec,
) -> DeviceSpec {
    match computing_device(item_buffers(items, items.len()) + alias_buffers(aliases)) {
        Some(device) => device,
        None => if aliases.len() > 0 {
            aliases[0].1.device
        } else {
            default_device
        },
    }
}

/// The device of a plan.
pub fn plan_device(
    items: &Vec<ScheduleItem>,
    aliases: &Vec<(u64, Buffer)>,
    default_device: &DeviceSpec,
) -> (device: DeviceSpec)
    ensures
        device == chosen_device(items@, aliases@, *default_device),
{
    let ghost all = item_buffers(items@, items@.len()) + alias_buffers(aliases@);
    let mut i: usize = 0;
    while i < items.len()
        invariant
            i <= items@.len(),
            computing_device(item_buffers(items@, i as nat)) is None,
            all == item_buffers(items@, items@.len()) + alias_buffers(aliases@),
        decreases items@.len() - i,
    {
        proof {
            lemma_computing_concat(
                item_buffers(items@, i as nat),
                items@[i as int].buffers@,
                items@[i as int].buffers@.len(),
            );
        }
        if let Some(device) = first_device(&items[i].buffers) {
            proof {
                lemma_item_buffers_prefix(items@, (i + 1) as nat, items@.len());
                let here = item_buffers(items@, (i + 1) as nat);
                lemma_first_computing_prefix(devices_of(here), devices_of(all), here.len());
                lemma_computing_found(devices_of(all), here.len(), all.len());
            }
            return device;
        }
        i = i + 1;
    }
    let mut j: usize = 0;
    proof {
        lemma_computing_concat(item_buffers(items@, items@.len()), alias_buffers(aliases@), 0);
    }
    while j < aliases.len()
        invariant
            j <= aliases@.len(),
            all == item_buffers(items@, items@.len()) + alias_buffers(aliases@),
            computing_device(item_buffers(items@, items@.len())) is None,
            first_computing(devices_of(alias_buffers(aliases@)), j as nat) is None,
        decreases aliases@.len() - j,
    {
        if !aliases[j].1.device.is_disk() {
            let device = aliases[j].1.device.copy();
            proof {
                let tail = alias_buffers(aliases@);
                assert(first_computing(devices_of(tail), (j + 1) as nat) == Some(device));
                lemma_computing_found(devices_of(tail), (j + 1) as nat, tail.len());
                lemma_computing_concat(item_buffers(items@, items@.len()), tail, tail.len());
            }
            return device;
        }
        j = j + 1;
    }
    proof {
        let tail = alias_buffers(aliases@);
        lemma_computing_concat(item_buffers(items@, items@.len()), tail, tail.len());
    }
    if aliases.len() > 0 {
        aliases[0].1.device.copy()
    } else {
        default_device.copy()
    }
}

proof fn lemma_item_buffers_prefix(items: Seq<ScheduleItem>, k: nat, n: nat)
    requires
        k <= n,
    ensures
        item_buffers(items, k).len() <= item_buffers(items, n).len(),
        forall|i: int|
            #![trigger item_buffers(items, n)[i]]
            0 <= i < item_buffers(items, k).len() ==> item_buffers(items, k)[i] == item_buffers(items, n)[i],
    decreases n - k,
{
    if k < n {
        lemma_item_buffers_prefix(items, k, (n - 1) as nat);
        assert forall|i: int|
            #![trigger item_buffers(items, n)[i]]
            0 <= i < item_buffers(items, k).len() implies item_buffers(items, k)[i] == item_buffers(items, n)[i] by {
            assert(item_buffers(items, (n - 1) as nat)[i] == item_buffers(items, n)[i]);
        }
    }
}

// ---------------------------------------------------------------------------
// Buffers
// ---------------------------------------------------------------------------

/// The first of the first `k` buffers that is one with `buffer`.
pub open spec fn storage_index(buffers: Seq<Buffer>, k: nat, buffer: Buffer) -> Option<usize>
    decreases k,
{
    if k == 0 {
        None
    } else {
        match storage_index(buffers, (k - 1) as nat, buffer) {
            Some(i) => Some(i),
            None => if buffers[k - 1].same_storage(&buffer) {
                Some((k - 1) as usize)
            } else {
                None
            },
        }
    }
}

/// The buffers of a plan, and where each graph node's buffer is among them.
pub struct TableModel {
    pub index: Map<u64, usize>,
    pub buffers: Seq<Buffer>,
}

impl TableModel {
    /// With the buffer of node `uop_id`: a node that is known keeps its buffer,
    /// and buffers that are one are held once.
    pub open spec fn with(self, uop_id: u64, buffer: Buffer) -> TableModel {
        if self.index.dom().contains(uop_id) {
            self
        } else {
            match storage_index(self.buffers, self.buffers.len(), buffer) {
                Some(i) => TableModel { index: self.index.insert(uop_id, i), buffers: self.buffers },
                None => TableModel {
                    index: self.index.insert(uop_id, self.buffers.len() as usize),
                    buffers: self.buffers.push(buffer),
                },
            }
        }
    }
}

/// The table after a list of nodes with their buffers.
pub open spec fn table_of(pairs: Seq<(u64, Buffer)>) -> TableModel
    decreases pairs.len(),
{
    if pairs.len() == 0 {
        TableModel { index: Map::empty(), buffers: Seq::empty() }
    } else {
        table_of(pairs.drop_last()).with(pairs.last().0, pairs.last().1)
    }
}

/// The number of buffers of an item that have a node, and of nodes that have a
/// buffer.
pub open spec fn pair_count(item: &ScheduleItem) -> nat {
    if item.buffers@.len() <= item.buffer_uop_ids@.len() {
        item.buffers@.len()
    } else {
        item.buffer_uop_ids@.len()
    }
}

/// The first `k` buffers of an item with their nodes.
pub open spec fn item_pairs(item: &ScheduleItem, k: nat) -> Seq<(u64, Buffer)> {
    Seq::new(k, |j: int| (item.buffer_uop_ids@[j], item.buffers@[j]))
}

/// The buffers of the first `k` items with their nodes.
pub open spec fn schedule_pairs(items: Seq<ScheduleItem>, k: nat) -> Seq<(u64, Buffer)>
    decreases k,
{
    if k == 0 {
        Seq::empty()
    } else {
        schedule_pairs(items, (k - 1) as nat) + item_pairs(&items[k - 1], pair_count(&items[k - 1]))
    }
}

/// The table of a schedule and its aliases.
pub open spec fn plan_table(items: Seq<ScheduleItem>, aliases: Seq<(u64, Buffer)>) -> TableModel {
    table_of(schedule_pairs(items, items.len()) + aliases)
}

/// The buffers of a plan, and where each graph node's buffer is among them.
#[derive(Debug, PartialEq, Eq)]
pub struct BufferTable {
    pub index: HashMap<u64, usize>,
    pub buffers: Vec<Buffer>,
}

impl BufferTable {
    pub open spec fn model(&self) -> TableModel {
        TableModel { index: self.index@, buffers: self.buffers@ }
    }

    /// No buffers.
    pub fn new() -> (table: BufferTable)
        ensures
            table.model() == table_of(Seq::empty()),
    {
        BufferTable { index: HashMap::new(), buffers: Vec::new() }
    }

    /// Adds the buffer of node `uop_id`.
    pub fn add_buffer(&mut self, uop_id: u64, buffer: &Buffer)
        ensures
            final(self).model() == old(self).model().with(uop_id, *buffer),
    {
        if self.index.contains_key(&uop_id) {
            return;
        }
        let mut i: usize = 0;
        while i < self.buffers.len()
            invariant
                i <= self.buffers@.len(),
                storage_index(self.buffers@, i as nat, *buffer) is None,
                *self == *old(self),
                !self.index@.dom().contains(uop_id),
            decreases self.buffers@.len() - i,
        {
            if self.buffers[i].shares_storage(buffer) {
                proof {
                    lemma_storage_found(self.buffers@, (i + 1) as nat, self.buffers@.len(), *buffer);
                }
                self.index.insert(uop_id, i);
                return;
            }
            i = i + 1;
        }
        let at = self.buffers.len();
        self.buffers.push(buffer.copy());
        self.index.insert(uop_id, at);
    }
}

proof fn lemma_storage_found(buffers: Seq<Buffer>, k: nat, n: nat, buffer: Buffer)
    requires
        k <= n,
        storage_index(buffers, k, buffer) is Some,
    ensures
        storage_index(buffers, n, buffer) == storage_index(buffers, k, buffer),
    decreases n - k,
{
    if k < n {
        lemma_storage_found(buffers, k, (n - 1) as nat, buffer);
    }
}

/// The buffers of a schedule and its aliases, as one table.
pub fn collect_buffers(items: &Vec<ScheduleItem>, aliases: &Vec<(u64, Buffer)>) -> (table: BufferTable)
    ensures
        table.model() == plan_table(items@, aliases@),
{
    let mut table = BufferTable::new();
    let ghost mut done: Seq<(u64, Buffer)> = Seq::empty();
    let mut i: usize = 0;
    while i < items.len()
        invariant
            i <= items@.len(),
            done == schedule_pairs(items@, i as nat),
            table.model() == table_of(done),
        decreases items@.len() - i,
    {
        let item = &items[i];
        let ghost earlier = done;
        let mut j: usize = 0;
        while j < item.buffers.len() && j < item.buffer_uop_ids.len()
            invariant
                j <= pair_count(item),
                done == earlier + item_pairs(item, j as nat),
                table.model() == table_of(done),
            decreases item.buffers@.len() - j,
        {
            table.add_buffer(item.buffer_uop_ids[j], &item.buffers[j]);
            proof {
                let pair = (item.buffer_uop_ids@[j as int], item.buffers@[j as int]);
                assert(done.push(pair).drop_last() =~= done);
                done = done.push(pair);
                assert(done =~= earlier + item_pairs(item, (j + 1) as nat));
            }
            j = j + 1;
        }
        i = i + 1;
    }
    let mut k: usize = 0;
    let ghost earlier = done;
    assert(done =~= earlier + aliases@.subrange(0, 0));
    while k < aliases.len()
        invariant
            k <= aliases@.len(),
            earlier == schedule_pairs(items@, items@.len()),
            done == earlier + aliases@.subrange(0, k as int),
            table.model() == table_of(done),
        decreases aliases@.len() - k,
    {
        table.add_buffer(aliases[k].0, &aliases[k].1);
        proof {
            assert(done.push(aliases@[k as int]).drop_last() =~= done);
            done = done.push(aliases@[k as int]);
            assert(done =~= earlier + aliases@.subrange(0, k + 1));
        }
        k = k + 1;
    }
    assert(done =~= schedule_pairs(items@, items@.len()) + aliases@);
    table
}

/// `output_ids` holds the id of every buffer that an output node of the first
/// `k` items names.
pub open spec fn names_output(items: Seq<ScheduleItem>, k: int, outputs: Seq<u64>, id: u64) -> bool {
    exists|i: int, j: int|
        #![trigger items[i].buffers@[j]]
        0 <= i < k && 0 <= j < pair_count(&items[i]) && items[i].buffers@[j].id == id && outputs.contains(
            items[i].buffer_uop_ids@[j],
        )
}

/// A buffer with this id, of one of the first `k` items, lies in the storage of
/// an alias.
pub open spec fn backs_alias(items: Seq<ScheduleItem>, k: int, aliases: Seq<(u64, Buffer)>, id: u64) -> bool {
    exists|i: int, j: int|
        #![trigger items[i].buffers@[j]]
        0 <= i < k && 0 <= j < items[i].buffers@.len() && items[i].buffers@[j].id == id && in_alias(
            aliases,
            items[i].buffers@[j].storage_id,
        )
}

/// An alias lies in this storage.
pub open spec fn in_alias(aliases: Seq<(u64, Buffer)>, storage_id: u64) -> bool {
    exists|a: int| #![trigger aliases[a]] 0 <= a < aliases.len() && aliases[a].1.storage_id == storage_id
}

/// The ids of the buffers that hold a plan's outputs: those that an output
/// node names, and those whose storage an aliased output lies in.
pub fn collect_output_buffer_ids(
    items: &Vec<ScheduleItem>,
    output_uop_ids: &Vec<u64>,
    aliases: &Vec<(u64, Buffer)>,
) -> (ids: HashSet<u64>)
    ensures
        forall|id: u64| #[trigger]
            ids@.contains(id) <==> names_output(items@, items@.len() as int, output_uop_ids@, id) || backs_alias(
                items@,
                items@.len() as int,
                aliases@,
                id,
            ),
{
    let mut output_set: HashSet<u64> = HashSet::new();
    let mut o: usize = 0;
    while o < output_uop_ids.len()
        invariant
            o <= output_uop_ids@.len(),
            forall|id: u64| #[trigger]
                output_set@.contains(id) <==> output_uop_ids@.subrange(0, o as int).contains(id),
        decreases output_uop_ids@.len() - o,
    {
        let ghost before = output_uop_ids@.subrange(0, o as int);
        let ghost after = output_uop_ids@.subrange(0, o + 1);
        output_set.insert(output_uop_ids[o]);
        proof {
            assert(after =~= before.push(output_uop_ids@[o as int]));
            assert forall|id: u64| #[trigger] output_set@.contains(id) <==> after.contains(id) by {
                if before.contains(id) {
                    let k = choose|k: int| 0 <= k < before.len() && before[k] == id;
                    assert(after[k] == id);
                }
                if after.contains(id) && id != output_uop_ids@[o as int] {
                    let k = choose|k: int| 0 <= k < after.len() && after[k] == id;
                    assert(before[k] == id);
                }
                assert(after[o as int] == output_uop_ids@[o as int]);
            }
        }
        o = o + 1;
    }
    assert(output_uop_ids@.subrange(0, o as int) =~= output_uop_ids@);
    let mut storage: HashSet<u64> = HashSet::new();
    let mut a: usize = 0;
    while a < aliases.len()
        invariant
            a <= aliases@.len(),
            forall|id: u64| #[trigger]
                storage@.contains(id) <==> in_alias(aliases@.subrange(0, a as int), id),
        decreases aliases@.len() - a,
    {
        let ghost before = aliases@.subrange(0, a as int);
        let ghost after = aliases@.subrange(0, a + 1);
        storage.insert(aliases[a].1.storage_id);
        proof {
            assert forall|id: u64| #[trigger] storage@.contains(id) <==> in_alias(after, id) by {
                if in_alias(before, id) {
                    let k = choose|k: int|
                        #![trigger before[k]]
                        0 <= k < before.len() && before[k].1.storage_id == id;
                    assert(after[k].1.storage_id == id);
                }
                if in_alias(after, id) && id != aliases@[a as int].1.storage_id {
                    let k = choose|k: int|
                        #![trigger after[k]]
                        0 <= k < after.len() && after[k].1.storage_id == id;
                    assert(before[k].1.storage_id == id);
                }
                assert(after[a as int].1.storage_id == aliases@[a as int].1.storage_id);
            }
        }
        a = a + 1;
    }
    assert(aliases@.subrange(0, a as int) =~= aliases@);
    let mut ids: HashSet<u64> = HashSet::new();
    let mut i: usize = 0;
    while i < items.len()
        invariant
            i <= items@.len(),
            forall|id: u64| #[trigger] output_set@.contains(id) <==> output_uop_ids@.contains(id),
            forall|id: u64| #[trigger] storage@.contains(id) <==> in_alias(aliases@, id),
            forall|id: u64| #[trigger]
                ids@.contains(id) <==> names_output(items@, i as int, output_uop_ids@, id) || backs_alias(
                    items@,
                    i as int,
                    aliases@,
                    id,
                ),
        decreases items@.len() - i,
    {
        let item = &items[i];
        let ghost earlier = ids@;
        let mut j: usize = 0;
        while j < item.buffers.len()
            invariant
                i < items@.len(),
                *item == items@[i as int],
                j <= item.buffers@.len(),
                forall|id: u64| #[trigger] output_set@.contains(id) <==> output_uop_ids@.contains(id),
                forall|id: u64| #[trigger] storage@.contains(id) <==> in_alias(aliases@, id),
                forall|id: u64| #[trigger]
                    ids@.contains(id) <==> earlier.contains(id) || exists|p: int|
                        #![trigger item.buffers@[p]]
                        0 <= p < j && item.buffers@[p].id == id && selected(item, p, output_uop_ids@, aliases@),
            decreases item.buffers@.len() - j,
        {
            let wanted = (j < item.buffer_uop_ids.len() && output_set.contains(&item.buffer_uop_ids[j]))
                || storage.contains(&item.buffers[j].storage_id);
            assert(wanted == selected(item, j as int, output_uop_ids@, aliases@));
            let ghost before = ids@;
            if wanted {
                ids.insert(item.buffers[j].id);
            }
            proof {
                assert forall|id: u64| #[trigger] ids@.contains(id) <==> earlier.contains(id) || exists|p: int|
                    #![trigger item.buffers@[p]]
                    0 <= p < j + 1 && item.buffers@[p].id == id && selected(item, p, output_uop_ids@, aliases@) by {
                    if wanted && id == item.buffers@[j as int].id {
                        assert(selected(item, j as int, output_uop_ids@, aliases@));
                    } else {
                        assert(ids@.contains(id) == before.contains(id));
                    }
                }
            }
            j = j + 1;
        }
        proof {
            assert forall|id: u64| #[trigger] ids@.contains(id) <==> names_output(
                items@,
                i + 1,
                output_uop_ids@,
                id,
            ) || backs_alias(items@, i + 1, aliases@, id) by {
                if ids@.contains(id) && !earlier.contains(id) {
                    let p = choose|p: int|
                        #![trigger item.buffers@[p]]
                        0 <= p < j && item.buffers@[p].id == id && selected(item, p, output_uop_ids@, aliases@);
                    assert(items@[i as int].buffers@[p].id == id);
                }
                if names_output(items@, i + 1, output_uop_ids@, id) {
                    let (x, p) = choose|x: int, p: int|
                        #![trigger items@[x].buffers@[p]]
                        0 <= x < i + 1 && 0 <= p < pair_count(&items@[x]) && items@[x].buffers@[p].id == id
                            && output_uop_ids@.contains(items@[x].buffer_uop_ids@[p]);
                    if x < i {
                        assert(items@[x].buffers@[p].id == id);
                        assert(names_output(items@, i as int, output_uop_ids@, id));
                        assert(earlier.contains(id));
                    } else {
                        assert(item.buffers@[p].id == id && selected(item, p, output_uop_ids@, aliases@));
                    }
                }
                if backs_alias(items@, i + 1, aliases@, id) {
                    let (x, p) = choose|x: int, p: int|
                        #![trigger items@[x].buffers@[p]]
                        0 <= x < i + 1 && 0 <= p < items@[x].buffers@.len() && items@[x].buffers@[p].id == id
                            && in_alias(aliases@, items@[x].buffers@[p].storage_id);
                    if x < i {
                        assert(items@[x].buffers@[p].id == id);
                        assert(backs_alias(items@, i as int, aliases@, id));
                        assert(earlier.contains(id));
                    } else {
                        assert(item.buffers@[p].id == id && selected(item, p, output_uop_ids@, aliases@));
                    }
                }
            }
        }
        i = i + 1;
    }
    ids
}

/// Buffer `p` of an item holds an output.
spec fn selected(item: &ScheduleItem, p: int, outputs: Seq<u64>, aliases: Seq<(u64, Buffer)>) -> bool {
    (p < item.buffer_uop_ids@.len() && outputs.contains(item.buffer_uop_ids@[p])) || in_alias(
        aliases,
        item.buffers@[p].storage_id,
    )
}

// ---------------------------------------------------------------------------
// Operations
// ---------------------------------------------------------------------------

/// What a compiled kernel says of itself.
#[derive(Debug, PartialEq, Eq)]
pub struct CompiledKernel {
    /// The kernel's number in the caller's store.
    pub handle: u64,
    pub device: DeviceSpec,
    /// The slots of its buffers, in the order in which it takes them.
    pub globals: Vec<usize>,
    /// The slots that it writes.
    pub outs: Vec<usize>,
    /// The slots that it reads.
    pub ins: Vec<usize>,
    pub var_names: Vec<String>,
}

/// A buffer-to-buffer transfer.
#[derive(Debug, PartialEq, Eq)]
pub struct PreparedCopy {
    pub id: u64,
    pub buffer_indices: Vec<usize>,
    pub dependencies: Vec<u64>,
    pub origin: u64,
}

/// A call of a runtime function.
#[derive(Debug, PartialEq, Eq)]
pub struct PreparedCustomFunction {
    pub id: u64,
    pub kind: u64,
    /// The nodes of the item's graph that hold the attributes of the call.
    pub attrs: Vec<usize>,
    pub buffer_indices: Vec<usize>,
    pub fixedvars: VarVals,
    pub dependencies: Vec<u64>,
    pub runtime_vars: u64,
    pub origin: u64,
}

/// A launch of a compiled kernel.
#[derive(Debug, PartialEq, Eq)]
pub struct PreparedKernel {
    pub id: u64,
    pub ast: Graph,
    pub kernel: u64,
    pub device: DeviceSpec,
    pub buffer_indices: Vec<usize>,
    pub output_indices: Vec<usize>,
    pub input_indices: Vec<usize>,
    pub vals: Vec<i64>,
    /// The variables that a caller may not set.
    pub fixedvars: VarVals,
    pub dependencies: Vec<u64>,
    pub runtime_vars: u64,
    pub origin: u64,
}

/// What the runtime does for one schedule item.
#[derive(Debug, PartialEq, Eq)]
pub enum PreparedOp {
    BufferCopy(PreparedCopy),
    CustomFunction(PreparedCustomFunction),
    CompiledProgram(PreparedKernel),
}

/// Every node has a buffer.
pub open spec fn all_known(ids: Seq<u64>, index: Map<u64, usize>) -> bool {
    forall|i: int| #![trigger ids[i]] 0 <= i < ids.len() ==> index.dom().contains(ids[i])
}

/// `indices` are the buffers of the nodes `ids`.
pub open spec fn indices_of(ids: Seq<u64>, index: Map<u64, usize>, indices: Seq<usize>) -> bool {
    &&& indices.len() == ids.len()
    &&& forall|i: int| #![trigger indices[i]] 0 <= i < ids.len() ==> index.contains_pair(ids[i], indices[i])
}

/// `error` names the first node that has no buffer.
pub open spec fn first_unknown(ids: Seq<u64>, index: Map<u64, usize>, error: Error) -> bool {
    exists|k: int|
        #![trigger ids[k]]
        0 <= k < ids.len() && !index.dom().contains(ids[k]) && all_known(ids.subrange(0, k), index) && error == (
        Error::BufferNotFound { uop_id: ids[k] })
}

/// The buffers of a list of nodes; the first node without one is the error.
pub fn resolve_buffer_indices(ids: &Vec<u64>, index: &HashMap<u64, usize>) -> (resolved: Result<Vec<usize>, Error>)
    ensures
        resolved is Ok <==> all_known(ids@, index@),
        match resolved {
            Ok(indices) => indices_of(ids@, index@, indices@),
            Err(error) => first_unknown(ids@, index@, error),
        },
{
    let mut indices: Vec<usize> = Vec::new();
    let mut i: usize = 0;
    while i < ids.len()
        invariant
            i <= ids@.len(),
            indices@.len() == i,
            forall|k: int| #![trigger ids@[k]] 0 <= k < i ==> index@.dom().contains(ids@[k]),
            forall|k: int| #![trigger indices@[k]] 0 <= k < i ==> index@.contains_pair(ids@[k], indices@[k]),
        decreases ids@.len() - i,
    {
        let uop_id = ids[i];
        match index.get(&uop_id) {
            Some(idx) => {
                indices.push(*idx);
            }
            None => {
                proof {
                    let head = ids@.subrange(0, i as int);
                    assert(all_known(head, index@)) by {
                        assert forall|k: int| #![trigger head[k]] 0 <= k < head.len() implies index@.dom().contains(
                            head[k],
                        ) by {
                            assert(head[k] == ids@[k]);
                        }
                    }
                    assert(ids@[i as int] == uop_id);
                }
                return Err(Error::BufferNotFound { uop_id });
            }
        }
        i = i + 1;
    }
    Ok(indices)
}

/// The buffers of an item's nodes.
pub fn resolve_item_buffer_indices(
    item: &ScheduleItem,
    uop_id_to_idx: &HashMap<u64, usize>,
) -> (resolved: Result<Vec<usize>, Error>)
    ensures
        resolved is Ok <==> all_known(item.buffer_uop_ids@, uop_id_to_idx@),
        match resolved {
            Ok(indices) => indices_of(item.buffer_uop_ids@, uop_id_to_idx@, indices@),
            Err(error) => first_unknown(item.buffer_uop_ids@, uop_id_to_idx@, error),
        },
{
    resolve_buffer_indices(&item.buffer_uop_ids, uop_id_to_idx)
}

/// The text of a call that supplies another number of buffers than its program
/// takes.
pub open spec fn buffer_count_mismatch(item: &ScheduleItem, globals: Seq<usize>) -> Seq<char> {
    "PROGRAM expected "@ + dec(globals.len()) + " compact buffers for slots "@ + dec_list(nats(globals))
        + ", CALL "@ + dec(item.kernel_id as nat) + " supplied "@ + dec(item.buffer_uop_ids@.len())
        + " (buffer_uop_ids="@ + dec_list(nats64(item.buffer_uop_ids@)) + ")"@
}

/// The buffers of an item's nodes, of which there must be one for each slot of
/// its program.
pub fn resolve_compiled_kernel_buffer_indices(
    item: &ScheduleItem,
    uop_id_to_idx: &HashMap<u64, usize>,
    globals: &Vec<usize>,
) -> (resolved: Result<Vec<usize>, Error>)
    ensures
        resolved is Ok <==> all_known(item.buffer_uop_ids@, uop_id_to_idx@) && item.buffer_uop_ids@.len()
            == globals@.len(),
        match resolved {
            Ok(indices) => indices_of(item.buffer_uop_ids@, uop_id_to_idx@, indices@),
            Err(error) => if all_known(item.buffer_uop_ids@, uop_id_to_idx@) {
                error matches Error::IrConstruction { details } && details@ == buffer_count_mismatch(item, globals@)
            } else {
                first_unknown(item.buffer_uop_ids@, uop_id_to_idx@, error)
            },
        },
{
    let buffer_indices = match resolve_item_buffer_indices(item, uop_id_to_idx) {
        Ok(indices) => indices,
        Err(error) => return Err(error),
    };
    if buffer_indices.len() != globals.len() {
        let mut details = "PROGRAM expected ".to_owned();
        details.append(dec_string(globals.len() as u64).as_str());
        details.append(" compact buffers for slots ");
        details.append(dec_list_string(globals.as_slice()).as_str());
        details.append(", CALL ");
        details.append(dec_string(item.kernel_id).as_str());
        details.append(" supplied ");
        details.append(dec_string(buffer_indices.len() as u64).as_str());
        details.append(" (buffer_uop_ids=");
        details.append(dec_list64_string(item.buffer_uop_ids.as_slice()).as_str());
        details.append(")");
        return Err(Error::IrConstruction { details });
    }
    Ok(buffer_indices)
}

/// What the runtime does for an item: the operation at its effect node.
pub open spec fn effect(item: &ScheduleItem) -> Op {
    item.ast.nodes@[effect_node(item.ast.nodes@, item.ast.nodes@.len() - 1)].op
}

/// Whether an item needs a compiled kernel.
pub open spec fn needs_kernel(item: &ScheduleItem) -> bool {
    !(effect(item) is Copy) && !(effect(item) is CustomFunction)
}

/// Whether an item needs a compiled kernel: copies and custom functions do not.
pub fn wants_kernel(item: &ScheduleItem) -> (wants: bool)
    requires
        item.ast.wf(),
    ensures
        wants == needs_kernel(item),
{
    match item.ast.nodes[runtime_effect_ast(&item.ast)].op {
        Op::Copy => false,
        Op::CustomFunction { .. } => false,
        _ => true,
    }
}

/// A kernel's metadata fits the buffers of an item.
pub open spec fn kernel_fits(item: &ScheduleItem, kernel: &CompiledKernel) -> bool {
    &&& item.buffer_uop_ids@.len() == kernel.globals@.len()
    &&& outputs_ok(kernel.globals@, kernel.outs@, kernel.globals@.len() as usize)
    &&& inputs_ok(kernel.globals@, kernel.ins@, kernel.globals@.len() as usize)
}

/// An item can be prepared.
pub open spec fn preparable(item: &ScheduleItem, kernel: Option<CompiledKernel>, index: Map<u64, usize>) -> bool {
    &&& all_known(item.buffer_uop_ids@, index)
    &&& needs_kernel(item) ==> kernel_fits(item, &kernel->0)
}

/// What preparing an item gives.
pub open spec fn prepares(
    item: &ScheduleItem,
    kernel: Option<CompiledKernel>,
    index: Map<u64, usize>,
    prepared: Result<PreparedOp, Error>,
) -> bool {
    match prepared {
        Ok(op) => match op {
            PreparedOp::BufferCopy(copy) => {
                &&& effect(item) is Copy
                &&& copy.id == item.kernel_id
                &&& indices_of(item.buffer_uop_ids@, index, copy.buffer_indices@)
                &&& copy.dependencies@ == item.dependencies@
                &&& copy.origin == item.origin
            },
            PreparedOp::CustomFunction(call) => {
                &&& effect(item) matches Op::CustomFunction { kind } && call.kind == kind
                &&& call.id == item.kernel_id
                &&& indices_of(item.buffer_uop_ids@, index, call.buffer_indices@)
                &&& call.fixedvars.entries@ == item.fixedvars.entries@
                &&& call.attrs@ == item.ast.nodes@[effect_node(item.ast.nodes@, item.ast.nodes@.len() - 1)].srcs@
                &&& call.dependencies@ == item.dependencies@
                &&& call.runtime_vars == item.runtime_vars
                &&& call.origin == item.origin
            },
            PreparedOp::CompiledProgram(launch) => {
                let compiled = kernel->0;
                let count = compiled.globals@.len() as usize;
                &&& needs_kernel(item)
                &&& launch.id == item.kernel_id
                &&& same_nodes(launch.ast.nodes@, item.ast.nodes@)
                &&& launch.kernel == compiled.handle
                &&& launch.device == compiled.device
                &&& indices_of(item.buffer_uop_ids@, index, launch.buffer_indices@)
                &&& outputs_resolve(compiled.globals@, compiled.outs@, count, Ok(launch.output_indices))
                &&& inputs_resolve(compiled.globals@, compiled.ins@, count, Ok(launch.input_indices))
                &&& launch.vals@.len() == compiled.var_names@.len()
                &&& forall|i: int|
                    #![trigger launch.vals@[i]]
                    0 <= i < launch.vals@.len() ==> launch.vals@[i] == initial_value(
                        item,
                        compiled.var_names@[i]@,
                    )
                &&& launch.fixedvars.wf()
                &&& forall|name: Seq<char>| #[trigger]
                    lookup(launch.fixedvars@, name) == if is_locked(item, name) {
                        lookup(item.fixedvars@, name)
                    } else {
                        None
                    }
                &&& launch.dependencies@ == item.dependencies@
                &&& launch.runtime_vars == item.runtime_vars
                &&& launch.origin == item.origin
            },
        },
        Err(error) => if !all_known(item.buffer_uop_ids@, index) {
            first_unknown(item.buffer_uop_ids@, index, error)
        } else {
            let compiled = kernel->0;
            let count = compiled.globals@.len() as usize;
            &&& needs_kernel(item)
            &&& if item.buffer_uop_ids@.len() != compiled.globals@.len() {
                error matches Error::IrConstruction { details } && details@ == buffer_count_mismatch(
                    item,
                    compiled.globals@,
                )
            } else if !outputs_ok(compiled.globals@, compiled.outs@, count) {
                outputs_resolve(compiled.globals@, compiled.outs@, count, Err(error))
            } else {
                inputs_resolve(compiled.globals@, compiled.ins@, count, Err(error))
            }
        },
    }
}

/// Prepares one item: a copy or a custom function as it stands, anything else
/// as a launch of its compiled kernel.
pub fn prepare_item(
    item: &ScheduleItem,
    kernel: &Option<CompiledKernel>,
    uop_id_to_idx: &HashMap<u64, usize>,
) -> (prepared: Result<PreparedOp, Error>)
    requires
        item.wf(),
        needs_kernel(item) ==> *kernel is Some,
    ensures
        prepares(item, *kernel, uop_id_to_idx@, prepared),
        prepared is Ok <==> preparable(item, *kernel, uop_id_to_idx@),
{
    match &item.ast.nodes[runtime_effect_ast(&item.ast)].op {
        Op::Copy => {
            let buffer_indices = match resolve_item_buffer_indices(item, uop_id_to_idx) {
                Ok(indices) => indices,
                Err(error) => return Err(error),
            };
            Ok(
                PreparedOp::BufferCopy(
                    PreparedCopy {
                        id: item.kernel_id,
                        buffer_indices,
                        dependencies: copy_u64s(&item.dependencies),
                        origin: item.origin,
                    },
                ),
            )
        }
        Op::CustomFunction { kind } => {
            let buffer_indices = match resolve_item_buffer_indices(item, uop_id_to_idx) {
                Ok(indices) => indices,
                Err(error) => return Err(error),
            };
            Ok(
                PreparedOp::CustomFunction(
                    PreparedCustomFunction {
                        id: item.kernel_id,
                        kind: *kind,
                        attrs: copy_usizes(&item.ast.nodes[runtime_effect_ast(&item.ast)].srcs),
                        buffer_indices,
                        fixedvars: item.fixedvars.copy(),
                        dependencies: copy_u64s(&item.dependencies),
                        runtime_vars: item.runtime_vars,
                        origin: item.origin,
                    },
                ),
            )
        }
        _ => {
            let compiled = match kernel {
                Some(compiled) => compiled,
                None => {
                    assert(false);
                    return Err(Error::NoKernelsFound);
                }
            };
            let buffer_indices = match resolve_compiled_kernel_buffer_indices(
                item,
                uop_id_to_idx,
                &compiled.globals,
            ) {
                Ok(indices) => indices,
                Err(error) => return Err(error),
            };
            let vals = initial_kernel_var_values(item, &compiled.var_names);
            let fixedvars = collect_non_overridable_fixedvars(item);
            let output_indices = match output_indices_from_program_metadata(
                compiled.globals.as_slice(),
                compiled.outs.as_slice(),
                buffer_indices.len(),
            ) {
                Ok(indices) => indices,
                Err(error) => return Err(error),
            };
            let input_indices = match input_indices_from_program_metadata(
                compiled.globals.as_slice(),
                compiled.ins.as_slice(),
                buffer_indices.len(),
            ) {
                Ok(indices) => indices,
                Err(error) => return Err(error),
            };
            Ok(
                PreparedOp::CompiledProgram(
                    PreparedKernel {
                        id: item.kernel_id,
                        ast: item.ast.copy(),
                        kernel: compiled.handle,
                        device: compiled.device.copy(),
                        buffer_indices,
                        output_indices,
                        input_indices,
                        vals,
                        fixedvars,
                        dependencies: copy_u64s(&item.dependencies),
                        runtime_vars: item.runtime_vars,
                        origin: item.origin,
                    },
                ),
            )
        }
    }
}

/// An operation of a plan with the items that run before it.
#[derive(Debug, PartialEq, Eq)]
pub struct PlannedOp {
    pub op: PreparedOp,
    pub instance_dependencies: Vec<usize>,
}

/// Everything the runtime needs to execute a schedule, any number of times.
#[derive(Debug, PartialEq, Eq)]
pub struct ExecutionPlan {
    pub device: DeviceSpec,
    pub table: BufferTable,
    pub ops: Vec<PlannedOp>,
    pub output_buffers: Vec<usize>,
}

impl ExecutionPlan {
    /// The number of outputs.
    pub fn num_outputs(&self) -> (count: usize)
        ensures
            count == self.output_buffers@.len(),
    {
        self.output_buffers.len()
    }
}

/// Every item that needs a kernel has one.
pub open spec fn kernels_present(items: Seq<ScheduleItem>, kernels: Seq<Option<CompiledKernel>>) -> bool {
    &&& kernels.len() == items.len()
    &&& forall|i: int|
        #![trigger items[i]]
        0 <= i < items.len() ==> items[i].wf() && (needs_kernel(&items[i]) ==> kernels[i] is Some)
}

/// The first `k` items can be prepared.
pub open spec fn preparable_upto(
    items: Seq<ScheduleItem>,
    kernels: Seq<Option<CompiledKernel>>,
    index: Map<u64, usize>,
    k: int,
) -> bool {
    forall|i: int| #![trigger items[i]] 0 <= i < k ==> preparable(&items[i], kernels[i], index)
}

/// `error` is the fault of item `k`, the first that cannot be prepared.
pub open spec fn item_fault(
    items: Seq<ScheduleItem>,
    kernels: Seq<Option<CompiledKernel>>,
    index: Map<u64, usize>,
    k: int,
    error: Error,
) -> bool {
    &&& 0 <= k < items.len()
    &&& preparable_upto(items, kernels, index, k)
    &&& !preparable(&items[k], kernels[k], index)
    &&& prepares(&items[k], kernels[k], index, Err(error))
}

/// What assembling the plan of a schedule comes to.
pub open spec fn assembles(
    items: Seq<ScheduleItem>,
    aliases: Seq<(u64, Buffer)>,
    output_uop_ids: Seq<u64>,
    kernels: Seq<Option<CompiledKernel>>,
    default_device: DeviceSpec,
    prepared: Result<ExecutionPlan, Error>,
) -> bool {
    let index = plan_table(items, aliases).index;
    let all = preparable_upto(items, kernels, index, items.len() as int);
    &&& prepared is Ok <==> all && all_known(output_uop_ids, index) && output_uop_ids.len() > 0
    &&& match prepared {
        Ok(plan) => {
            &&& plan.table.model() == plan_table(items, aliases)
            &&& plan.device == chosen_device(items, aliases, default_device)
            &&& plan.ops@.len() == items.len()
            &&& forall|i: int|
                #![trigger plan.ops@[i]]
                0 <= i < items.len() ==> prepares(&items[i], kernels[i], index, Ok(plan.ops@[i].op))
                    && plan.ops@[i].instance_dependencies@ == items[i].instance_dependencies@
            &&& indices_of(output_uop_ids, index, plan.output_buffers@)
        },
        Err(error) => if all {
            if all_known(output_uop_ids, index) {
                error matches Error::IrConstruction { details } && details@
                    == "prepare_execution_plan produced no output buffer indices"@
            } else {
                first_unknown(output_uop_ids, index, error)
            }
        } else {
            exists|k: int| #[trigger] item_fault(items, kernels, index, k, error)
        },
    }
}

/// Assembles the plan of a schedule whose kernels are compiled: one operation
/// for each item, in order, over one table of buffers, and the buffers of the
/// output nodes. The first item that cannot be prepared is the error; then the
/// first output node without a buffer; then the lack of outputs.
pub fn prepare_execution_plan(
    items: &Vec<ScheduleItem>,
    aliases: &Vec<(u64, Buffer)>,
    output_uop_ids: &Vec<u64>,
    kernels: &Vec<Option<CompiledKernel>>,
    default_device: &DeviceSpec,
) -> (prepared: Result<ExecutionPlan, Error>)
    requires
        kernels_present(items@, kernels@),
    ensures
        assembles(items@, aliases@, output_uop_ids@, kernels@, *default_device, prepared),
{
    let device = plan_device(items, aliases, default_device);
    let table = collect_buffers(items, aliases);
    let ghost index = plan_table(items@, aliases@).index;
    let mut ops: Vec<PlannedOp> = Vec::new();
    let mut i: usize = 0;
    while i < items.len()
        invariant
            i <= items@.len(),
            kernels_present(items@, kernels@),
            index == plan_table(items@, aliases@).index,
            table.model() == plan_table(items@, aliases@),
            ops@.len() == i,
            preparable_upto(items@, kernels@, index, i as int),
            forall|k: int|
                #![trigger ops@[k]]
                0 <= k < i ==> prepares(&items@[k], kernels@[k], index, Ok(ops@[k].op))
                    && ops@[k].instance_dependencies@ == items@[k].instance_dependencies@,
        decreases items@.len() - i,
    {
        assert(items@[i as int].wf());
        match prepare_item(&items[i], &kernels[i], &table.index) {
            Ok(op) => {
                ops.push(
                    PlannedOp { op, instance_dependencies: copy_usizes(&items[i].instance_dependencies) },
                );
            }
            Err(error) => {
                assert(item_fault(items@, kernels@, index, i as int, error));
                return Err(error);
            }
        }
        i = i + 1;
    }
    let output_buffers = match resolve_buffer_indices(output_uop_ids, &table.index) {
        Ok(indices) => indices,
        Err(error) => return Err(error),
    };
    if output_buffers.len() == 0 {
        return Err(
            Error::IrConstruction {
                details: "prepare_execution_plan produced no output buffer indices".to_owned(),
            },
        );
    }
    Ok(ExecutionPlan { device, table, ops, output_buffers })
}

// ---------------------------------------------------------------------------
// Laws
// ---------------------------------------------------------------------------

/// A variable that nobody has set starts in its bounds.
pub proof fn law_unset_variables_start_in_bounds(item: &ScheduleItem, name: Seq<char>, min: i64, max: i64)
    requires
        lookup(item.fixedvars@, name) is None,
        name != "core_id"@,
        bounds_of(item.ast.nodes@, item.ast.nodes@.len(), name) == Some((min, max)),
        min <= max,
    ensures
        min <= initial_value(item, name) <= max,
{
}

/// Every node's buffer is in the table, and no two buffers of the table are
/// one.
pub open spec fn table_sound(table: TableModel) -> bool {
    &&& forall|id: u64| #[trigger] table.index.dom().contains(id) ==> table.index[id] < table.buffers.len()
    &&& forall|i: int, j: int|
        #![trigger table.buffers[i], table.buffers[j]]
        0 <= i < j < table.buffers.len() ==> !table.buffers[i].same_storage(&table.buffers[j])
}

proof fn lemma_storage_index(buffers: Seq<Buffer>, k: nat, buffer: Buffer)
    requires
        k <= buffers.len(),
        buffers.len() <= usize::MAX,
    ensures
        match storage_index(buffers, k, buffer) {
            Some(i) => i < k && buffers[i as int].same_storage(&buffer),
            None => forall|i: int|
                #![trigger buffers[i]]
                0 <= i < k ==> !buffers[i].same_storage(&buffer),
        },
    decreases k,
{
    if k > 0 {
        lemma_storage_index(buffers, (k - 1) as nat, buffer);
    }
}

/// Whatever buffers a plan is given, its table holds each storage once, and
/// every node it knows has a buffer in it.
pub proof fn law_buffer_table_is_sound(pairs: Seq<(u64, Buffer)>)
    requires
        pairs.len() <= usize::MAX,
    ensures
        table_sound(table_of(pairs)),
        table_of(pairs).buffers.len() <= pairs.len(),
        forall|i: int|
            #![trigger pairs[i]]
            0 <= i < pairs.len() ==> table_of(pairs).index.dom().contains(pairs[i].0),
    decreases pairs.len(),
{
    if pairs.len() > 0 {
        let earlier = pairs.drop_last();
        let last = pairs.last();
        law_buffer_table_is_sound(earlier);
        let before = table_of(earlier);
        lemma_storage_index(before.buffers, before.buffers.len(), last.1);
        assert forall|i: int| #![trigger pairs[i]] 0 <= i < pairs.len() implies table_of(
            pairs,
        ).index.dom().contains(pairs[i].0) by {
            if i < earlier.len() {
                assert(earlier[i] == pairs[i]);
            }
        }
    }
}

/// A node that a table knows keeps its buffer, whatever is added later.
pub proof fn law_buffer_table_only_grows(pairs: Seq<(u64, Buffer)>, more: Seq<(u64, Buffer)>)
    ensures
        forall|id: u64| #[trigger]
            table_of(pairs).index.dom().contains(id) ==> table_of(pairs + more).index.contains_pair(
                id,
                table_of(pairs).index[id],
            ),
        table_of(pairs).buffers.len() <= table_of(pairs + more).buffers.len(),
        forall|i: int|
            #![trigger table_of(pairs + more).buffers[i]]
            0 <= i < table_of(pairs).buffers.len() ==> table_of(pairs + more).buffers[i] == table_of(
                pairs,
            ).buffers[i],
    decreases more.len(),
{
    if more.len() == 0 {
        assert(pairs + more =~= pairs);
    } else {
        law_buffer_table_only_grows(pairs, more.drop_last());
        assert((pairs + more).drop_last() =~= pairs + more.drop_last());
        assert((pairs + more).last() == more.last());
        let before = table_of(pairs + more.drop_last());
        assert forall|i: int|
            #![trigger table_of(pairs + more).buffers[i]]
            0 <= i < table_of(pairs).buffers.len() implies table_of(pairs + more).buffers[i] == table_of(
            pairs,
        ).buffers[i] by {
            assert(before.buffers[i] == table_of(pairs).buffers[i]);
        }
    }
}

/// Nodes whose buffers are one have one place in the table: adding the buffer
/// of a new node that is one with a buffer of the table adds no buffer.
pub proof fn law_one_storage_one_buffer(pairs: Seq<(u64, Buffer)>, uop_id: u64, buffer: Buffer, at: int)
    requires
        pairs.len() < usize::MAX,
        !table_of(pairs).index.dom().contains(uop_id),
        0 <= at < table_of(pairs).buffers.len(),
        table_of(pairs).buffers[at].same_storage(&buffer),
    ensures
        table_of(pairs.push((uop_id, buffer))).buffers == table_of(pairs).buffers,
        table_of(pairs.push((uop_id, buffer))).index.contains_pair(uop_id, at as usize),
{
    law_buffer_table_is_sound(pairs);
    let table = table_of(pairs);
    lemma_storage_index(table.buffers, table.buffers.len(), buffer);
    assert(pairs.push((uop_id, buffer)).drop_last() =~= pairs);
    let i = storage_index(table.buffers, table.buffers.len(), buffer)->0 as int;
    assert(table.buffers[i].same_storage(&buffer));
    if i < at {
        assert(table.buffers[i].same_storage(&table.buffers[at]));
    } else if at < i {
        assert(table.buffers[at].same_storage(&table.buffers[i]));
    }
}

/// Every buffer that nodes are resolved to is in the table.
pub proof fn law_resolved_buffers_are_in_the_table(
    pairs: Seq<(u64, Buffer)>,
    ids: Seq<u64>,
    indices: Seq<usize>,
)
    requires
        pairs.len() <= usize::MAX,
        indices_of(ids, table_of(pairs).index, indices),
    ensures
        forall|i: int|
            #![trigger indices[i]]
            0 <= i < indices.len() ==> indices[i] < table_of(pairs).buffers.len(),
{
    law_buffer_table_is_sound(pairs);
}

} // verus!
