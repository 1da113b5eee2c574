//! What plans promise: the device they run on, the buffers that operations and
//! outputs refer to, and the values that kernels start with.

use vstd::prelude::*;
use vstd::string::*;

use crate::device::DeviceSpec;
use crate::error::Error;
use crate::graph::{Node, Op};
use crate::graph_laws::{introduces, law_effects_are_found_in_loops};
use crate::plan::{
    alias_buffers, assembles, backs_alias, bounds_of, chosen_device, computing_device, devices_of,
    first_computing, initial_value, is_locked, item_buffers, law_buffer_table_is_sound, law_buffer_table_only_grows,
    names_output, needs_kernel, plan_table, prepares, schedule_pairs, storage_index, table_of, CompiledKernel,
    ExecutionPlan, PreparedOp,
};
use crate::program::{inputs_resolve, outputs_resolve, position_of, positions_of};
use crate::schedule::{Buffer, ScheduleItem};
use crate::vars::lookup;

verus! {

/// Place `q` of item `b` comes before place `p` of item `a`.
pub open spec fn earlier(b: int, q: int, a: int, p: int) -> bool {
    b < a || (b == a && q < p)
}

// ---------------------------------------------------------------------------
// Devices
// ---------------------------------------------------------------------------

proof fn lemma_first_computing(devices: Seq<DeviceSpec>, k: nat, i: int)
    requires
        k <= devices.len(),
    ensures
        first_computing(devices, k) is None <==> forall|j: int|
            #![trigger devices[j]]
            0 <= j < k ==> devices[j] is Disk,
        0 <= i < k && !(devices[i] is Disk) && (forall|j: int| #![trigger devices[j]] 0 <= j < i ==> devices[j] is Disk)
            ==> first_computing(devices, k) == Some(devices[i]),
        first_computing(devices, k) matches Some(device) ==> !(device is Disk),
    decreases k,
{
    if k > 0 {
        lemma_first_computing(devices, (k - 1) as nat, i);
    }
}

proof fn lemma_item_buffers_grow(items: Seq<ScheduleItem>, k: nat, n: nat)
    requires
        k <= n <= items.len(),
    ensures
        item_buffers(items, k).len() <= item_buffers(items, n).len(),
        item_buffers(items, n).subrange(0, item_buffers(items, k).len() as int) == item_buffers(items, k),
    decreases n - k,
{
    if k < n {
        lemma_item_buffers_grow(items, k, (n - 1) as nat);
        let (x, y, z) = (item_buffers(items, k), item_buffers(items, (n - 1) as nat), item_buffers(items, n));
        assert(z.subrange(0, x.len() as int) =~= y.subrange(0, x.len() as int));
    } else {
        assert(item_buffers(items, n).subrange(0, item_buffers(items, k).len() as int) =~= item_buffers(items, k));
    }
}

proof fn lemma_item_buffer_at(items: Seq<ScheduleItem>, a: int, p: int)
    requires
        0 <= a < items.len(),
        0 <= p < items[a].buffers@.len(),
    ensures
        item_buffers(items, a as nat).len() + p < item_buffers(items, items.len()).len(),
        item_buffers(items, items.len())[item_buffers(items, a as nat).len() + p] == items[a].buffers@[p],
{
    lemma_item_buffers_grow(items, (a + 1) as nat, items.len());
    let here = item_buffers(items, (a + 1) as nat);
    let x = item_buffers(items, a as nat).len() + p;
    assert(here[x] == items[a].buffers@[p]);
    assert(item_buffers(items, items.len()).subrange(0, here.len() as int)[x] == here[x]);
}

proof fn lemma_item_buffer_from(items: Seq<ScheduleItem>, n: nat, x: int) -> (place: (int, int))
    requires
        n <= items.len(),
        0 <= x < item_buffers(items, n).len(),
    ensures
        0 <= place.0 < n,
        0 <= place.1 < items[place.0].buffers@.len(),
        item_buffers(items, place.0 as nat).len() + place.1 == x,
        item_buffers(items, n)[x] == items[place.0].buffers@[place.1],
    decreases n,
{
    let before = item_buffers(items, (n - 1) as nat);
    if x < before.len() {
        lemma_item_buffer_from(items, (n - 1) as nat, x)
    } else {
        (n - 1, x - before.len())
    }
}

/// Every buffer of the items before place `p` of item `a` is on a disk.
pub open spec fn disks_before(items: Seq<ScheduleItem>, a: int, p: int) -> bool {
    forall|b: int, q: int|
        #![trigger items[b].buffers@[q]]
        0 <= b < items.len() && 0 <= q < items[b].buffers@.len() && earlier(b, q, a, p)
            ==> items[b].buffers@[q].device is Disk
}

/// A plan runs on the device of the first buffer that is not on a disk, where the
/// buffers of the items come in order and then those of the aliases. Only where every
/// buffer is on a disk is it the first alias's device, or the default.
pub proof fn law_plans_run_on_the_first_device_that_computes(
    items: Seq<ScheduleItem>,
    aliases: Seq<(u64, Buffer)>,
    default_device: DeviceSpec,
    device: DeviceSpec,
    a: int,
    p: int,
)
    requires
        device == chosen_device(items, aliases, default_device),
    ensures
        0 <= a < items.len() && 0 <= p < items[a].buffers@.len() && !(items[a].buffers@[p].device is Disk)
            && disks_before(items, a, p) ==> device == items[a].buffers@[p].device,
        disks_before(items, items.len() as int, 0) && 0 <= p < aliases.len() && !(aliases[p].1.device is Disk) && (forall|
            j: int,
        |
            #![trigger aliases[j]]
            0 <= j < p ==> aliases[j].1.device is Disk) ==> device == aliases[p].1.device,
        disks_before(items, items.len() as int, 0) && (forall|j: int|
            #![trigger aliases[j]]
            0 <= j < aliases.len() ==> aliases[j].1.device is Disk) ==> device == if aliases.len() > 0 {
            aliases[0].1.device
        } else {
            default_device
        },
{
    let own = item_buffers(items, items.len());
    let all = own + alias_buffers(aliases);
    let devices = devices_of(all);
    if 0 <= a < items.len() && 0 <= p < items[a].buffers@.len() && disks_before(items, a, p) {
        lemma_item_buffer_at(items, a, p);
        let x = item_buffers(items, a as nat).len() + p;
        assert(all[x] == own[x]);
        assert forall|y: int| #![trigger devices[y]] 0 <= y < x implies devices[y] is Disk by {
            let (b, q) = lemma_item_buffer_from(items, items.len(), y);
            assert(all[y] == own[y]);
            if b > a {
                lemma_item_buffers_grow(items, (a + 1) as nat, b as nat);
            }
            assert(earlier(b, q, a, p));
            assert(items[b].buffers@[q].device is Disk);
        }
        lemma_first_computing(devices, all.len(), x);
    }
    if disks_before(items, items.len() as int, 0) {
        assert forall|y: int| #![trigger devices[y]] 0 <= y < own.len() implies devices[y] is Disk by {
            let (b, q) = lemma_item_buffer_from(items, items.len(), y);
            assert(all[y] == own[y]);
            assert(items[b].buffers@[q].device is Disk);
        }
        assert forall|y: int| #![trigger devices[y]] own.len() <= y < all.len() implies devices[y] == aliases[y
            - own.len()].1.device by {
            let _ = aliases[y - own.len()];
        }
        lemma_first_computing(devices, all.len(), own.len() + p);
    }
}

/// A kernel is compiled for the device of the first of its buffers that is not on a
/// disk, and for the default only where all of them are.
pub proof fn law_kernels_are_compiled_for_their_buffers(buffers: Seq<Buffer>, i: int)
    ensures
        0 <= i < buffers.len() && !(buffers[i].device is Disk) && (forall|j: int|
            #![trigger buffers[j]]
            0 <= j < i ==> buffers[j].device is Disk) ==> computing_device(buffers) == Some(buffers[i].device),
        computing_device(buffers) is None <==> forall|j: int|
            #![trigger buffers[j]]
            0 <= j < buffers.len() ==> buffers[j].device is Disk,
{
    let devices = devices_of(buffers);
    lemma_first_computing(devices, buffers.len(), i);
    assert forall|j: int| #![trigger buffers[j]] 0 <= j < buffers.len() implies devices[j] == buffers[j].device by {}
    assert((forall|j: int| #![trigger devices[j]] 0 <= j < buffers.len() ==> devices[j] is Disk) <==> (forall|j: int|
        #![trigger buffers[j]]
        0 <= j < buffers.len() ==> buffers[j].device is Disk)) by {
        if forall|j: int| #![trigger devices[j]] 0 <= j < buffers.len() ==> devices[j] is Disk {
            assert forall|j: int| #![trigger buffers[j]] 0 <= j < buffers.len() implies buffers[j].device is Disk by {
                assert(devices[j] is Disk);
            }
        }
    }
}

// ---------------------------------------------------------------------------
// Buffers
// ---------------------------------------------------------------------------

/// Two buffers are the same bytes of one handle, read as one type.
pub open spec fn same_bytes(x: Buffer, y: Buffer) -> bool {
    (x.id, x.offset, x.size, x.dtype) == (y.id, y.offset, y.size, y.dtype)
}

/// Buffers of different handles, of different bytes or of different types are not one
/// in a plan, and any other are.
pub proof fn law_buffers_are_one_by_their_bytes(x: Buffer, y: Buffer)
    ensures
        x.same_storage(&y) <==> same_bytes(x, y),
{
}

proof fn lemma_index_from(pairs: Seq<(u64, Buffer)>, id: u64)
    requires
        table_of(pairs).index.dom().contains(id),
    ensures
        exists|j: int| #![trigger pairs[j]] 0 <= j < pairs.len() && pairs[j].0 == id,
    decreases pairs.len(),
{
    if pairs.len() > 0 {
        let last = pairs.len() - 1;
        if pairs[last].0 != id {
            let rest = pairs.drop_last();
            lemma_index_from(rest, id);
            let j = choose|j: int| #![trigger rest[j]] 0 <= j < rest.len() && rest[j].0 == id;
            assert(pairs[j].0 == id);
        }
    }
}

proof fn lemma_storage(buffers: Seq<Buffer>, k: nat, buffer: Buffer)
    requires
        k <= buffers.len() <= usize::MAX,
    ensures
        storage_index(buffers, k, buffer) matches Some(i) ==> i < k && same_bytes(buffers[i as int], buffer),
    decreases k,
{
    if k > 0 {
        lemma_storage(buffers, (k - 1) as nat, buffer);
    }
}

/// A node's buffer in the table is the bytes that the node was first given.
pub proof fn law_tables_hold_what_nodes_were_given(pairs: Seq<(u64, Buffer)>, i: int)
    requires
        pairs.len() <= usize::MAX,
        0 <= i < pairs.len(),
        forall|j: int| #![trigger pairs[j]] 0 <= j < i ==> pairs[j].0 != pairs[i].0,
    ensures
        ({
            let table = table_of(pairs);
            let id = pairs[i].0;
            &&& table.index.dom().contains(id)
            &&& table.index[id] < table.buffers.len()
            &&& same_bytes(table.buffers[table.index[id] as int], pairs[i].1)
        }),
{
    let before = pairs.subrange(0, i);
    let upto = pairs.subrange(0, i + 1);
    let after = pairs.subrange(i + 1, pairs.len() as int);
    let id = pairs[i].0;
    assert(upto.drop_last() =~= before);
    assert(upto.last() == pairs[i]);
    assert(upto + after =~= pairs);
    law_buffer_table_is_sound(before);
    law_buffer_table_is_sound(upto);
    law_buffer_table_is_sound(pairs);
    law_buffer_table_only_grows(upto, after);
    if table_of(before).index.dom().contains(id) {
        lemma_index_from(before, id);
        let j = choose|j: int| #![trigger before[j]] 0 <= j < before.len() && before[j].0 == id;
        assert(pairs[j].0 == id);
    }
    lemma_storage(table_of(before).buffers, table_of(before).buffers.len(), pairs[i].1);
    let at = table_of(upto).index[id] as int;
    assert(upto[i] == pairs[i]);
    assert(table_of(upto).index.dom().contains(id));
    assert(same_bytes(table_of(upto).buffers[at], pairs[i].1));
    assert(table_of(pairs).buffers[at] == table_of(upto).buffers[at]);
}

proof fn lemma_pairs_grow(items: Seq<ScheduleItem>, k: nat, n: nat)
    requires
        k <= n <= items.len(),
    ensures
        schedule_pairs(items, k).len() <= schedule_pairs(items, n).len(),
        schedule_pairs(items, n).subrange(0, schedule_pairs(items, k).len() as int) == schedule_pairs(items, k),
    decreases n - k,
{
    if k < n {
        lemma_pairs_grow(items, k, (n - 1) as nat);
        let (x, y, z) = (schedule_pairs(items, k), schedule_pairs(items, (n - 1) as nat), schedule_pairs(items, n));
        assert(z.subrange(0, x.len() as int) =~= y.subrange(0, x.len() as int));
    } else {
        assert(schedule_pairs(items, n).subrange(0, schedule_pairs(items, k).len() as int) =~= schedule_pairs(items, k));
    }
}

/// Place `p` of an item has a node and a buffer.
pub open spec fn has_pair(items: Seq<ScheduleItem>, a: int, p: int) -> bool {
    0 <= a < items.len() && 0 <= p < items[a].buffers@.len() && p < items[a].buffer_uop_ids@.len()
}

proof fn lemma_pair_at(items: Seq<ScheduleItem>, a: int, p: int)
    requires
        has_pair(items, a, p),
    ensures
        schedule_pairs(items, a as nat).len() + p < schedule_pairs(items, items.len()).len(),
        schedule_pairs(items, items.len())[schedule_pairs(items, a as nat).len() + p] == (
            items[a].buffer_uop_ids@[p],
            items[a].buffers@[p],
        ),
{
    lemma_pairs_grow(items, (a + 1) as nat, items.len());
    let here = schedule_pairs(items, (a + 1) as nat);
    let x = schedule_pairs(items, a as nat).len() + p;
    assert(here[x] == (items[a].buffer_uop_ids@[p], items[a].buffers@[p]));
    assert(schedule_pairs(items, items.len()).subrange(0, here.len() as int)[x] == here[x]);
}

proof fn lemma_pair_from(items: Seq<ScheduleItem>, n: nat, x: int) -> (place: (int, int))
    requires
        n <= items.len(),
        0 <= x < schedule_pairs(items, n).len(),
    ensures
        place.0 < n,
        has_pair(items, place.0, place.1),
        schedule_pairs(items, place.0 as nat).len() + place.1 == x,
        schedule_pairs(items, n)[x] == (
            items[place.0].buffer_uop_ids@[place.1],
            items[place.0].buffers@[place.1],
        ),
    decreases n,
{
    let before = schedule_pairs(items, (n - 1) as nat);
    if x < before.len() {
        lemma_pair_from(items, (n - 1) as nat, x)
    } else {
        (n - 1, x - before.len())
    }
}

/// Place `p` of item `a` is the first that names its node.
pub open spec fn names_first(items: Seq<ScheduleItem>, a: int, p: int) -> bool {
    &&& has_pair(items, a, p)
    &&& forall|b: int, q: int|
        #![trigger items[b].buffer_uop_ids@[q]]
        has_pair(items, b, q) && earlier(b, q, a, p) ==> items[b].buffer_uop_ids@[q] != items[a].buffer_uop_ids@[p]
}

/// The number of buffers that a schedule and its aliases name, which has to fit.
pub open spec fn pair_total(items: Seq<ScheduleItem>, aliases: Seq<(u64, Buffer)>) -> nat {
    (schedule_pairs(items, items.len()) + aliases).len()
}

/// The table of a plan gives a node the bytes that the first item to name it has
/// there; a node that no item names has those of the first alias that does.
pub proof fn law_plans_find_every_buffer(items: Seq<ScheduleItem>, aliases: Seq<(u64, Buffer)>, a: int, p: int)
    requires
        pair_total(items, aliases) <= usize::MAX,
    ensures
        ({
            let table = plan_table(items, aliases);
            &&& names_first(items, a, p) ==> table.index.dom().contains(items[a].buffer_uop_ids@[p]) && ({
                let at = table.index[items[a].buffer_uop_ids@[p]];
                at < table.buffers.len() && same_bytes(table.buffers[at as int], items[a].buffers@[p])
            })
            &&& 0 <= p < aliases.len() && (forall|b: int, q: int|
                #![trigger items[b].buffer_uop_ids@[q]]
                has_pair(items, b, q) ==> items[b].buffer_uop_ids@[q] != aliases[p].0) && (forall|j: int|
                #![trigger aliases[j]]
                0 <= j < p ==> aliases[j].0 != aliases[p].0) ==> table.index.dom().contains(aliases[p].0) && ({
                let at = table.index[aliases[p].0];
                at < table.buffers.len() && same_bytes(table.buffers[at as int], aliases[p].1)
            })
        }),
{
    let own = schedule_pairs(items, items.len());
    let all = own + aliases;
    if names_first(items, a, p) {
        lemma_pair_at(items, a, p);
        let x = schedule_pairs(items, a as nat).len() + p;
        assert(all[x] == own[x]);
        assert forall|y: int| #![trigger all[y]] 0 <= y < x implies all[y].0 != all[x].0 by {
            let (b, q) = lemma_pair_from(items, items.len(), y);
            assert(all[y] == own[y]);
            if b > a {
                lemma_pairs_grow(items, (a + 1) as nat, b as nat);
            }
            assert(earlier(b, q, a, p));
            assert(items[b].buffer_uop_ids@[q] != items[a].buffer_uop_ids@[p]);
        }
        law_tables_hold_what_nodes_were_given(all, x);
    }
    if 0 <= p < aliases.len() && (forall|b: int, q: int|
        #![trigger items[b].buffer_uop_ids@[q]]
        has_pair(items, b, q) ==> items[b].buffer_uop_ids@[q] != aliases[p].0) && (forall|j: int|
        #![trigger aliases[j]]
        0 <= j < p ==> aliases[j].0 != aliases[p].0) {
        let x = own.len() + p;
        assert(all[x] == aliases[p]);
        assert forall|y: int| #![trigger all[y]] 0 <= y < x implies all[y].0 != all[x].0 by {
            if y < own.len() {
                let (b, q) = lemma_pair_from(items, items.len(), y);
                assert(all[y] == own[y]);
                assert(items[b].buffer_uop_ids@[q] != aliases[p].0);
            } else {
                assert(all[y] == aliases[y - own.len()]);
            }
        }
        law_tables_hold_what_nodes_were_given(all, x);
    }
}

/// A plan has one operation for each item, in order, with the item's identity, its
/// dependencies and its buffers, and one output for each output node: what it refers
/// to for a node are the bytes that the first item to name the node has there.
pub proof fn law_plans_carry_out_their_schedule(
    items: Seq<ScheduleItem>,
    aliases: Seq<(u64, Buffer)>,
    output_uop_ids: Seq<u64>,
    kernels: Seq<Option<CompiledKernel>>,
    default_device: DeviceSpec,
    plan: ExecutionPlan,
    i: int,
    k: int,
    o: int,
    a: int,
    p: int,
)
    requires
        pair_total(items, aliases) <= usize::MAX,
        assembles(items, aliases, output_uop_ids, kernels, default_device, Ok(plan)),
        0 <= i < items.len(),
        0 <= k < items[i].buffer_uop_ids@.len(),
        0 <= o < output_uop_ids.len(),
    ensures
        plan.ops@.len() == items.len(),
        plan.output_buffers@.len() == output_uop_ids.len(),
        plan.device == chosen_device(items, aliases, default_device),
        ({
            let planned = plan.ops@[i];
            &&& planned.instance_dependencies@ == items[i].instance_dependencies@
            &&& op_id(planned.op) == items[i].kernel_id
            &&& op_dependencies(planned.op) == items[i].dependencies@
            &&& op_origin(planned.op) == items[i].origin
            &&& op_buffers(planned.op).len() == items[i].buffer_uop_ids@.len()
            &&& names_first(items, a, p) && items[i].buffer_uop_ids@[k] == items[a].buffer_uop_ids@[p] ==> same_bytes(
                plan.table.buffers@[op_buffers(planned.op)[k] as int],
                items[a].buffers@[p],
            )
        }),
        names_first(items, a, p) && output_uop_ids[o] == items[a].buffer_uop_ids@[p] ==> same_bytes(
            plan.table.buffers@[plan.output_buffers@[o] as int],
            items[a].buffers@[p],
        ),
{
    law_plans_find_every_buffer(items, aliases, a, p);
    let _ = plan.ops@[i];
    let _ = op_buffers(plan.ops@[i].op)[k];
    let _ = plan.output_buffers@[o];
    assert(plan.table.model().buffers == plan.table.buffers@);
}

pub open spec fn op_id(op: PreparedOp) -> u64 {
    match op {
        PreparedOp::BufferCopy(copy) => copy.id,
        PreparedOp::CustomFunction(call) => call.id,
        PreparedOp::CompiledProgram(launch) => launch.id,
    }
}

pub open spec fn op_buffers(op: PreparedOp) -> Seq<usize> {
    match op {
        PreparedOp::BufferCopy(copy) => copy.buffer_indices@,
        PreparedOp::CustomFunction(call) => call.buffer_indices@,
        PreparedOp::CompiledProgram(launch) => launch.buffer_indices@,
    }
}

pub open spec fn op_dependencies(op: PreparedOp) -> Seq<u64> {
    match op {
        PreparedOp::BufferCopy(copy) => copy.dependencies@,
        PreparedOp::CustomFunction(call) => call.dependencies@,
        PreparedOp::CompiledProgram(launch) => launch.dependencies@,
    }
}

pub open spec fn op_origin(op: PreparedOp) -> u64 {
    match op {
        PreparedOp::BufferCopy(copy) => copy.origin,
        PreparedOp::CustomFunction(call) => call.origin,
        PreparedOp::CompiledProgram(launch) => launch.origin,
    }
}

/// There is no plan if and only if an item or an output refers to a node without a
/// buffer, a kernel's metadata does not fit its item, or there is no output.
pub proof fn law_plans_fail_for_a_reason(
    items: Seq<ScheduleItem>,
    aliases: Seq<(u64, Buffer)>,
    output_uop_ids: Seq<u64>,
    kernels: Seq<Option<CompiledKernel>>,
    default_device: DeviceSpec,
    prepared: Result<ExecutionPlan, Error>,
    i: int,
    k: int,
)
    requires
        assembles(items, aliases, output_uop_ids, kernels, default_device, prepared),
    ensures
        output_uop_ids.len() == 0 ==> prepared is Err,
        0 <= k < output_uop_ids.len() && !plan_table(items, aliases).index.dom().contains(output_uop_ids[k])
            ==> prepared is Err,
        0 <= i < items.len() && 0 <= k < items[i].buffer_uop_ids@.len() && !plan_table(
            items,
            aliases,
        ).index.dom().contains(items[i].buffer_uop_ids@[k]) ==> prepared is Err,
        0 <= i < items.len() && needs_kernel(&items[i]) && kernels[i]->0.globals@.len()
            != items[i].buffer_uop_ids@.len() ==> prepared is Err,
        output_uop_ids.len() > 0 && (forall|j: int|
            #![trigger items[j]]
            0 <= j < items.len() ==> !needs_kernel(&items[j])) && (forall|x: int, y: int|
            #![trigger items[x].buffer_uop_ids@[y]]
            0 <= x < items.len() && 0 <= y < items[x].buffer_uop_ids@.len() ==> plan_table(
                items,
                aliases,
            ).index.dom().contains(items[x].buffer_uop_ids@[y])) && (forall|o: int|
            #![trigger output_uop_ids[o]]
            0 <= o < output_uop_ids.len() ==> plan_table(items, aliases).index.dom().contains(output_uop_ids[o]))
            ==> prepared is Ok,
{
    let index = plan_table(items, aliases).index;
    if (forall|j: int| #![trigger items[j]] 0 <= j < items.len() ==> !needs_kernel(&items[j])) && (forall|x: int, y: int|
        #![trigger items[x].buffer_uop_ids@[y]]
        0 <= x < items.len() && 0 <= y < items[x].buffer_uop_ids@.len() ==> index.dom().contains(
            items[x].buffer_uop_ids@[y],
        )) {
        assert forall|j: int| #![trigger items[j]] 0 <= j < items.len() implies crate::plan::preparable(
            &items[j],
            kernels[j],
            index,
        ) by {
            let ids = items[j].buffer_uop_ids@;
            assert forall|y: int| #![trigger ids[y]] 0 <= y < ids.len() implies index.dom().contains(ids[y]) by {
                assert(index.dom().contains(items[j].buffer_uop_ids@[y]));
            }
        }
    }
}

/// An item that refers to a node without a buffer fails for the first such node, which the
/// error names.
pub proof fn law_faults_name_the_missing_node(
    item: &ScheduleItem,
    kernel: Option<CompiledKernel>,
    index: Map<u64, usize>,
    prepared: Result<PreparedOp, Error>,
    k: int,
)
    requires
        prepares(item, kernel, index, prepared),
        0 <= k < item.buffer_uop_ids@.len(),
        !index.dom().contains(item.buffer_uop_ids@[k]),
        forall|j: int|
            #![trigger item.buffer_uop_ids@[j]]
            0 <= j < k ==> index.dom().contains(item.buffer_uop_ids@[j]),
    ensures
        prepared == Err::<PreparedOp, Error>(Error::BufferNotFound { uop_id: item.buffer_uop_ids@[k] }),
{
    let ids = item.buffer_uop_ids@;
    match prepared {
        Ok(op) => {
            assert(crate::plan::indices_of(ids, index, op_buffers(op)));
            let _ = op_buffers(op)[k];
        },
        Err(error) => {
            let m = choose|m: int|
                #![trigger ids[m]]
                0 <= m < ids.len() && !index.dom().contains(ids[m]) && crate::plan::all_known(ids.subrange(0, m), index)
                    && error == (Error::BufferNotFound { uop_id: ids[m] });
            if k < m {
                assert(ids.subrange(0, m)[k] == ids[k]);
            }
        },
    }
}

/// A copy is prepared as a copy and a custom function as a call of its kind, with
/// loops around it or without; anything else is launched as a kernel.
pub proof fn law_items_are_prepared_as_what_they_are(
    item: &ScheduleItem,
    kernel: Option<CompiledKernel>,
    index: Map<u64, usize>,
    op: PreparedOp,
)
    requires
        item.wf(),
        prepares(item, kernel, index, Ok(op)),
    ensures
        ({
            let root = item.ast.root();
            let inner = root.srcs[0];
            let in_loop = root.op is End && root.srcs.len() > 0;
            &&& op is BufferCopy <==> root.op is Copy || (in_loop && inner.op is Copy)
            &&& op is CustomFunction <==> root.op is CustomFunction || (in_loop && inner.op is CustomFunction)
            &&& op matches PreparedOp::CustomFunction(call) ==> root.op == (Op::CustomFunction { kind: call.kind })
                || inner.op == (Op::CustomFunction { kind: call.kind })
            &&& op matches PreparedOp::CustomFunction(call) ==> call.fixedvars@ == item.fixedvars@ && call.runtime_vars
                == item.runtime_vars
            &&& op matches PreparedOp::CompiledProgram(launch) ==> launch.kernel == kernel->0.handle && launch.device
                == kernel->0.device && launch.runtime_vars == item.runtime_vars
        }),
{
    let nodes = item.ast.nodes@;
    let node = crate::graph::effect_node(nodes, nodes.len() - 1);
    law_effects_are_found_in_loops(&item.ast, node);
    if nodes[nodes.len() - 1].srcs@.len() > 0 {
        assert(nodes[nodes.len() - 1].srcs@[0] < nodes.len() - 1);
    }
}

/// A buffer holds an output if and only if an item names an output node there, or its
/// storage is an alias's.
pub proof fn law_outputs_are_held(
    items: Seq<ScheduleItem>,
    outputs: Seq<u64>,
    aliases: Seq<(u64, Buffer)>,
    a: int,
    p: int,
    c: int,
)
    requires
        0 <= a < items.len(),
        0 <= p < items[a].buffers@.len(),
    ensures
        ({
            let n = items.len() as int;
            let id = items[a].buffers@[p].id;
            let held = names_output(items, n, outputs, id) || backs_alias(items, n, aliases, id);
            &&& p < items[a].buffer_uop_ids@.len() && outputs.contains(items[a].buffer_uop_ids@[p]) ==> held
            &&& 0 <= c < aliases.len() && aliases[c].1.storage_id == items[a].buffers@[p].storage_id ==> held
            &&& held ==> exists|b: int, q: int|
                #![trigger items[b].buffers@[q]]
                0 <= b < n && 0 <= q < items[b].buffers@.len() && items[b].buffers@[q].id == id && ((q
                    < items[b].buffer_uop_ids@.len() && outputs.contains(items[b].buffer_uop_ids@[q])) || exists|d: int|
                    #![trigger aliases[d]]
                    0 <= d < aliases.len() && aliases[d].1.storage_id == items[b].buffers@[q].storage_id)
        }),
{
    let id = items[a].buffers@[p].id;
    assert(items[a].buffers@[p].id == id);
    if 0 <= c < aliases.len() {
        let _ = aliases[c];
    }
}

// ---------------------------------------------------------------------------
// Variables
// ---------------------------------------------------------------------------

/// An operation declares these bounds for a variable.
pub open spec fn declares(op: Op, name: Seq<char>, min: i64, max: i64) -> bool {
    &&& introduces(op, name)
    &&& op matches Op::DefineVar { min: low, max: high, .. } ==> low == min && high == max
    &&& op matches Op::Param { arg } ==> arg.bounds == Some((min, max))
}

proof fn lemma_bounds(nodes: Seq<Node>, k: nat, i: int, name: Seq<char>, min: i64, max: i64)
    requires
        k <= nodes.len(),
    ensures
        0 <= i < k && declares(nodes[i].op, name, min, max) && (forall|j: int, low: i64, high: i64|
            i < j < k ==> !#[trigger] declares(nodes[j].op, name, low, high)) ==> bounds_of(nodes, k, name) == Some(
            (min, max),
        ),
        (forall|j: int, low: i64, high: i64| 0 <= j < k ==> !#[trigger] declares(nodes[j].op, name, low, high))
            ==> bounds_of(nodes, k, name) is None,
    decreases k,
{
    if k > 0 {
        lemma_bounds(nodes, (k - 1) as nat, i, name, min, max);
        if let Some((low, high)) = bounds_of(nodes, k, name) {
            if crate::plan::declared_bounds(nodes[k - 1].op, name) is Some {
                assert(declares(nodes[k - 1].op, name, low, high));
            }
        }
    }
}

/// A kernel's variable starts with the value that the schedule fixed. One that it did
/// not fix starts within its bounds, the last that are declared, and no number within
/// them is closer to 0. The core number, and a name without bounds, start with 0.
pub proof fn law_variables_start_close_to_zero(
    item: &ScheduleItem,
    name: Seq<char>,
    i: int,
    min: i64,
    max: i64,
    other: i64,
)
    requires
        min <= other <= max,
    ensures
        lookup(item.fixedvars@, name) matches Some(value) ==> initial_value(item, name) == value,
        lookup(item.fixedvars@, name) is None && name == "core_id"@ ==> initial_value(item, name) == 0,
        lookup(item.fixedvars@, name) is None && name != "core_id"@ && 0 <= i < item.ast.nodes@.len() && declares(
            item.ast.nodes@[i].op,
            name,
            min,
            max,
        ) && (forall|j: int, low: i64, high: i64|
            i < j < item.ast.nodes@.len() ==> !#[trigger] declares(item.ast.nodes@[j].op, name, low, high)) ==> {
            let value = initial_value(item, name);
            &&& min <= value <= max
            &&& 0 <= value ==> value <= if other >= 0 {
                other as int
            } else {
                -other
            }
            &&& value < 0 ==> -value <= if other >= 0 {
                other as int
            } else {
                -other
            }
        },
        lookup(item.fixedvars@, name) is None && (forall|j: int, low: i64, high: i64|
            0 <= j < item.ast.nodes@.len() ==> !#[trigger] declares(item.ast.nodes@[j].op, name, low, high))
            ==> initial_value(item, name) == 0,
{
    lemma_bounds(item.ast.nodes@, item.ast.nodes@.len(), i, name, min, max);
}

/// A launch passes each of the kernel's variables its first value, in the kernel's
/// order; what its caller may not set are the loop counters and the device number, as
/// far as the schedule fixed them, and nothing else.
pub proof fn law_launches_pass_their_variables(
    item: &ScheduleItem,
    kernel: Option<CompiledKernel>,
    index: Map<u64, usize>,
    op: PreparedOp,
    k: int,
    name: Seq<char>,
)
    requires
        prepares(item, kernel, index, Ok(op)),
        op is CompiledProgram,
        0 <= k < kernel->0.var_names@.len(),
    ensures
        ({
            let launch = op->CompiledProgram_0;
            let own = kernel->0.var_names@[k]@;
            let counts = exists|i: int|
                #![trigger item.loop_var_names@[i]]
                0 <= i < item.loop_var_names@.len() && item.loop_var_names@[i]@ == name;
            &&& launch.vals@.len() == kernel->0.var_names@.len()
            &&& item.fixedvars@.dom().contains(own) ==> launch.vals@[k] == item.fixedvars@[own]
            &&& !item.fixedvars@.dom().contains(own) ==> launch.vals@[k] == initial_value(item, own)
            &&& launch.fixedvars@.dom().contains(name) <==> item.fixedvars@.dom().contains(name) && (counts || name
                == "_device_num"@)
            &&& launch.fixedvars@.dom().contains(name) ==> launch.fixedvars@[name] == item.fixedvars@[name]
        }),
{
    let launch = op->CompiledProgram_0;
    let _ = launch.vals@[k];
    assert(lookup(launch.fixedvars@, name) == if is_locked(item, name) {
        lookup(item.fixedvars@, name)
    } else {
        None
    });
}

/// A launch writes the buffers where the kernel's output slots stand, and reads those where
/// its input slots do, and no others.
pub proof fn law_launches_write_their_outputs(
    item: &ScheduleItem,
    kernel: Option<CompiledKernel>,
    index: Map<u64, usize>,
    op: PreparedOp,
    p: usize,
)
    requires
        prepares(item, kernel, index, Ok(op)),
        op is CompiledProgram,
    ensures
        ({
            let launch = op->CompiledProgram_0;
            let compiled = kernel->0;
            &&& launch.output_indices@.contains(p) <==> exists|k: int|
                #![trigger compiled.outs@[k]]
                0 <= k < compiled.outs@.len() && is_last(compiled.globals@, p as int, compiled.outs@[k])
            &&& launch.input_indices@.contains(p) <==> exists|k: int|
                #![trigger compiled.ins@[k]]
                0 <= k < compiled.ins@.len() && is_last(compiled.globals@, p as int, compiled.ins@[k])
            &&& launch.output_indices@.contains(p) || launch.input_indices@.contains(p) ==> p < compiled.globals@.len()
        }),
{
    let launch = op->CompiledProgram_0;
    let compiled = kernel->0;
    assert(compiled.globals.len() == compiled.globals@.len());
    let count = compiled.globals@.len() as usize;
    law_indices_are_where_the_slots_stand(compiled.globals@, compiled.outs@, count, launch.output_indices, p, 0, 0);
    law_indices_are_where_the_slots_stand(compiled.globals@, compiled.ins@, count, launch.input_indices, p, 0, 0);
}

// ---------------------------------------------------------------------------
// Program metadata
// ---------------------------------------------------------------------------

/// Position `p` is the last that holds `slot`.
pub open spec fn is_last(globals: Seq<usize>, p: int, slot: usize) -> bool {
    &&& 0 <= p < globals.len()
    &&& globals[p] == slot
    &&& forall|q: int| #![trigger globals[q]] p < q < globals.len() ==> globals[q] != slot
}

proof fn lemma_last_position(globals: Seq<usize>, k: nat, slot: usize)
    requires
        k <= globals.len() <= usize::MAX,
    ensures
        crate::program::last_position(globals, k, slot) matches Some(p) ==> p < k && globals[p as int] == slot && forall|
            q: int,
        |
            #![trigger globals[q]]
            p < q < k ==> globals[q] != slot,
        crate::program::last_position(globals, k, slot) is None ==> forall|q: int|
            #![trigger globals[q]]
            0 <= q < k ==> globals[q] != slot,
    decreases k,
{
    if k > 0 {
        lemma_last_position(globals, (k - 1) as nat, slot);
    }
}

proof fn lemma_position(globals: Seq<usize>, slot: usize, p: int)
    requires
        globals.len() <= usize::MAX,
    ensures
        0 <= p <= usize::MAX && position_of(globals, slot) == Some(p as usize) <==> is_last(globals, p, slot),
        position_of(globals, slot) matches Some(q) ==> q < globals.len(),
        position_of(globals, slot) is None <==> !globals.contains(slot),
{
    lemma_last_position(globals, globals.len(), slot);
    if let Some(q) = position_of(globals, slot) {
        assert(globals[q as int] == slot);
        if is_last(globals, p, slot) {
            if q < p {
                assert(globals[p] != slot);
            } else if p < q {
                assert(globals[q as int] != slot);
            }
        }
    } else if globals.contains(slot) {
        let q = choose|q: int| 0 <= q < globals.len() && globals[q] == slot;
        assert(globals[q] != slot);
    }
}

/// The buffers that a kernel writes, or reads, are where its slots stand: a position is
/// among them if and only if it is the last that holds one of the slots. They come in
/// ascending order, and each is a buffer that the kernel has.
pub proof fn law_indices_are_where_the_slots_stand(
    globals: Seq<usize>,
    slots: Seq<usize>,
    num_buffers: usize,
    indices: Vec<usize>,
    p: usize,
    i: int,
    j: int,
)
    requires
        globals.len() <= usize::MAX,
        outputs_resolve(globals, slots, num_buffers, Ok(indices)) || inputs_resolve(
            globals,
            slots,
            num_buffers,
            Ok(indices),
        ),
    ensures
        indices@.contains(p) <==> exists|k: int|
            #![trigger slots[k]]
            0 <= k < slots.len() && is_last(globals, p as int, slots[k]),
        0 <= i < j < indices@.len() ==> indices@[i] < indices@[j],
        0 <= i < indices@.len() ==> indices@[i] < num_buffers,
{
    assert(positions_of(globals, slots, indices@));
    if indices@.contains(p) {
        let x = choose|x: int| 0 <= x < indices@.len() && indices@[x] == p;
        let k = choose|k: int|
            #![trigger slots[k]]
            0 <= k < slots.len() && position_of(globals, slots[k]) == Some(indices@[x]);
        lemma_position(globals, slots[k], p as int);
    }
    if exists|k: int| #![trigger slots[k]] 0 <= k < slots.len() && is_last(globals, p as int, slots[k]) {
        let k = choose|k: int| #![trigger slots[k]] 0 <= k < slots.len() && is_last(globals, p as int, slots[k]);
        lemma_position(globals, slots[k], p as int);
        assert(position_of(globals, slots[k]) == Some(p));
    }
    if 0 <= i < indices@.len() {
        let k = choose|k: int|
            #![trigger slots[k]]
            0 <= k < slots.len() && position_of(globals, slots[k]) == Some(indices@[i]);
        assert(crate::program::placed(globals, slots[k], num_buffers));
    }
}

/// A slot stands among the first `num_buffers` positions.
pub open spec fn stands(globals: Seq<usize>, slot: usize, num_buffers: usize) -> bool {
    exists|p: int| p < num_buffers && #[trigger] is_last(globals, p, slot)
}

/// Metadata is refused if and only if a slot stands nowhere among the buffers; a kernel
/// without buffers, slots or outputs writes nothing and is refused too.
pub proof fn law_metadata_is_refused_for_a_reason(
    globals: Seq<usize>,
    slots: Seq<usize>,
    num_buffers: usize,
    outs: Result<Vec<usize>, Error>,
    ins: Result<Vec<usize>, Error>,
)
    requires
        globals.len() <= usize::MAX,
        outputs_resolve(globals, slots, num_buffers, outs),
        inputs_resolve(globals, slots, num_buffers, ins),
    ensures
        ins is Ok <==> forall|k: int|
            #![trigger slots[k]]
            0 <= k < slots.len() ==> stands(globals, slots[k], num_buffers),
        outs is Ok <==> ins is Ok && num_buffers > 0 && globals.len() > 0 && slots.len() > 0,
        outs matches Err(error) ==> error is IrConstruction,
        ins matches Err(error) ==> error is IrConstruction,
{
    assert forall|k: int| #![trigger slots[k]] 0 <= k < slots.len() implies (crate::program::placed(
        globals,
        slots[k],
        num_buffers,
    ) <==> stands(globals, slots[k], num_buffers)) by {
        if let Some(p) = position_of(globals, slots[k]) {
            lemma_position(globals, slots[k], p as int);
        }
        if stands(globals, slots[k], num_buffers) {
            let p = choose|p: int| p < num_buffers && #[trigger] is_last(globals, p, slots[k]);
            lemma_position(globals, slots[k], p);
        }
    }
    if ins is Err {
        let k = choose|k: int|
            #![trigger slots[k]]
            crate::program::first_misplaced(globals, slots, num_buffers, k);
        assert(!stands(globals, slots[k], num_buffers));
    } else {
        assert(crate::program::inputs_ok(globals, slots, num_buffers));
    }
}

} // verus!
