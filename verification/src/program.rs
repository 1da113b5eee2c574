//! The metadata of compiled programs: which buffers they read and write.

use std::collections::HashMap;

use vstd::prelude::*;
use vstd::string::*;

use crate::error::Error;
use crate::text::{dec, dec_list, dec_list_string, dec_string, nats};

verus! {

/// The last of the first `k` positions of `globals` that holds `slot`.
pub open spec fn last_position(globals: Seq<usize>, k: nat, slot: usize) -> Option<usize>
    decreases k,
{
    if k == 0 {
        None
    } else if globals[k - 1] == slot {
        Some((k - 1) as usize)
    } else {
        last_position(globals, (k - 1) as nat, slot)
    }
}

/// The buffer position of `slot`.
pub open spec fn position_of(globals: Seq<usize>, slot: usize) -> Option<usize> {
    last_position(globals, globals.len(), slot)
}

/// `slot` has a position below `num_buffers`.
pub open spec fn placed(globals: Seq<usize>, slot: usize, num_buffers: usize) -> bool {
    position_of(globals, slot) matches Some(position) && position < num_buffers
}

/// `slots[k]` is the first that has no position below `num_buffers`.
pub open spec fn first_misplaced(globals: Seq<usize>, slots: Seq<usize>, num_buffers: usize, k: int) -> bool {
    &&& 0 <= k < slots.len()
    &&& !placed(globals, slots[k], num_buffers)
    &&& forall|i: int| #![trigger slots[i]] 0 <= i < k ==> placed(globals, slots[i], num_buffers)
}

pub open spec fn ascending(s: Seq<usize>) -> bool {
    forall|i: int, j: int| #![trigger s[i], s[j]] 0 <= i < j < s.len() ==> s[i] < s[j]
}

/// One of `slots` has position `position`.
pub open spec fn some_slot_at(globals: Seq<usize>, slots: Seq<usize>, position: usize) -> bool {
    exists|k: int|
        #![trigger slots[k]]
        0 <= k < slots.len() && position_of(globals, slots[k]) == Some(position)
}

/// `indices` are the positions of `slots`, each once, in ascending order.
pub open spec fn positions_of(globals: Seq<usize>, slots: Seq<usize>, indices: Seq<usize>) -> bool {
    &&& ascending(indices)
    &&& forall|i: int|
        #![trigger indices[i]]
        0 <= i < indices.len() ==> some_slot_at(globals, slots, indices[i])
    &&& forall|k: int|
        #![trigger slots[k]]
        0 <= k < slots.len() ==> (position_of(globals, slots[k]) matches Some(position) && indices.contains(
            position,
        ))
}

/// Adds `x` to an ascending list unless it is there.
fn insert_ascending(list: &mut Vec<usize>, x: usize)
    requires
        ascending(old(list)@),
    ensures
        ascending(final(list)@),
        final(list)@.contains(x),
        forall|i: int|
            #![trigger old(list)@[i]]
            0 <= i < old(list)@.len() ==> final(list)@.contains(old(list)@[i]),
        forall|i: int|
            #![trigger final(list)@[i]]
            0 <= i < final(list)@.len() ==> final(list)@[i] == x || old(list)@.contains(final(list)@[i]),
{
    let mut at: usize = 0;
    while at < list.len() && list[at] < x
        invariant
            at <= list@.len(),
            list@ == old(list)@,
            forall|a: int| #![trigger list@[a]] 0 <= a < at ==> list@[a] < x,
        decreases list@.len() - at,
    {
        at = at + 1;
    }
    let ghost before = list@;
    if at < list.len() && list[at] == x {
        assert(list@[at as int] == x);
        return;
    }
    list.insert(at, x);
    proof {
        assert(list@[at as int] == x);
        assert forall|i: int, j: int| #![trigger list@[i], list@[j]] 0 <= i < j < list@.len() implies list@[i]
            < list@[j] by {
            let a = if i < at { i } else { i - 1 };
            let b = if j < at { j } else { j - 1 };
            if i != at {
                assert(list@[i] == before[a]);
            }
            if j != at {
                assert(list@[j] == before[b]);
                if i == at && b > at {
                    assert(before[at as int] < before[b]);
                }
            }
        }
        assert forall|i: int| #![trigger before[i]] 0 <= i < before.len() implies list@.contains(before[i]) by {
            let b = if i < at { i } else { i + 1 };
            assert(list@[b] == before[i]);
        }
        assert forall|i: int| #![trigger list@[i]] 0 <= i < list@.len() implies list@[i] == x || before.contains(
            list@[i],
        ) by {
            if i != at {
                let a = if i < at { i } else { i - 1 };
                assert(list@[i] == before[a]);
            }
        }
    }
}

/// Where each slot stands in `globals`: the last place, where it is repeated.
fn slot_positions(globals: &[usize]) -> (positions: HashMap<usize, usize>)
    ensures
        forall|slot: usize| #[trigger]
            positions@.dom().contains(slot) <==> position_of(globals@, slot) is Some,
        forall|slot: usize| #[trigger]
            positions@.dom().contains(slot) ==> position_of(globals@, slot) == Some(positions@[slot]),
{
    let mut positions: HashMap<usize, usize> = HashMap::new();
    let mut i: usize = 0;
    while i < globals.len()
        invariant
            i <= globals@.len(),
            forall|slot: usize| #[trigger]
                positions@.dom().contains(slot) <==> last_position(globals@, i as nat, slot) is Some,
            forall|slot: usize| #[trigger]
                positions@.dom().contains(slot) ==> last_position(globals@, i as nat, slot) == Some(
                    positions@[slot],
                ),
        decreases globals@.len() - i,
    {
        positions.insert(globals[i], i);
        i = i + 1;
    }
    positions
}

/// The positions of `slots`, each once and ascending; or the index of the
/// first slot that has none below `num_buffers`, with the position that it has.
fn resolve_positions(
    globals: &[usize],
    slots: &[usize],
    num_buffers: usize,
) -> (resolved: Result<Vec<usize>, (usize, Option<usize>)>)
    ensures
        match resolved {
            Ok(indices) => {
                &&& forall|k: int|
                    #![trigger slots@[k]]
                    0 <= k < slots@.len() ==> placed(globals@, slots@[k], num_buffers)
                &&& positions_of(globals@, slots@, indices@)
            },
            Err((k, position)) => first_misplaced(globals@, slots@, num_buffers, k as int) && position
                == position_of(globals@, slots@[k as int]),
        },
{
    let positions = slot_positions(globals);
    let mut indices: Vec<usize> = Vec::new();
    let mut i: usize = 0;
    while i < slots.len()
        invariant
            i <= slots@.len(),
            forall|slot: usize| #[trigger]
                positions@.dom().contains(slot) <==> position_of(globals@, slot) is Some,
            forall|slot: usize| #[trigger]
                positions@.dom().contains(slot) ==> position_of(globals@, slot) == Some(positions@[slot]),
            forall|k: int| #![trigger slots@[k]] 0 <= k < i ==> placed(globals@, slots@[k], num_buffers),
            ascending(indices@),
            forall|j: int|
                #![trigger indices@[j]]
                0 <= j < indices@.len() ==> exists|k: int|
                    #![trigger slots@[k]]
                    0 <= k < i && position_of(globals@, slots@[k]) == Some(indices@[j]),
            forall|k: int|
                #![trigger slots@[k]]
                0 <= k < i ==> (position_of(globals@, slots@[k]) matches Some(position) && indices@.contains(
                    position,
                )),
        decreases slots@.len() - i,
    {
        let slot = slots[i];
        assert(positions@.dom().contains(slot) <==> position_of(globals@, slot) is Some);
        match positions.get(&slot) {
            None => {
                return Err((i, None));
            }
            Some(position) => {
                let position = *position;
                if position >= num_buffers {
                    return Err((i, Some(position)));
                }
                let ghost before = indices@;
                insert_ascending(&mut indices, position);
                proof {
                    assert forall|j: int| #![trigger indices@[j]] 0 <= j < indices@.len() implies exists|k: int|
                        #![trigger slots@[k]]
                        0 <= k < i + 1 && position_of(globals@, slots@[k]) == Some(indices@[j]) by {
                        if indices@[j] == position {
                            assert(position_of(globals@, slots@[i as int]) == Some(indices@[j]));
                        } else {
                            let b = choose|b: int| 0 <= b < before.len() && before[b] == indices@[j];
                            let k = choose|k: int|
                                #![trigger slots@[k]]
                                0 <= k < i && position_of(globals@, slots@[k]) == Some(before[b]);
                            assert(position_of(globals@, slots@[k]) == Some(indices@[j]));
                        }
                    }
                    assert forall|k: int| #![trigger slots@[k]] 0 <= k < i + 1 implies (position_of(
                        globals@,
                        slots@[k],
                    ) matches Some(position) && indices@.contains(position)) by {
                        if k < i {
                            let p = position_of(globals@, slots@[k])->0;
                            let b = choose|b: int| 0 <= b < before.len() && before[b] == p;
                            assert(indices@.contains(before[b]));
                        }
                    }
                }
            }
        }
        i = i + 1;
    }
    Ok(indices)
}

/// The text of a slot that `globals` does not list.
pub open spec fn slot_not_found(list: Seq<char>, slot: usize, globals: Seq<usize>) -> Seq<char> {
    "ProgramSpec."@ + list + " slot "@ + dec(slot as nat) + " not found in ProgramSpec.globals="@ + dec_list(
        nats(globals),
    )
}

/// The text of a slot whose position is past the buffers.
pub open spec fn index_out_of_range(kind: Seq<char>, position: usize, slot: usize, num_buffers: usize) -> Seq<
    char,
> {
    "ProgramSpec "@ + kind + " index "@ + dec(position as nat) + " (slot "@ + dec(slot as nat)
        + ") out of range for "@ + dec(num_buffers as nat) + " buffers"@
}

/// The text of the fault of `slot`.
pub open spec fn misplaced_message(
    list: Seq<char>,
    kind: Seq<char>,
    globals: Seq<usize>,
    slot: usize,
    num_buffers: usize,
) -> Seq<char> {
    match position_of(globals, slot) {
        None => slot_not_found(list, slot, globals),
        Some(position) => index_out_of_range(kind, position, slot, num_buffers),
    }
}

fn misplaced_error(
    list: &str,
    kind: &str,
    globals: &[usize],
    slot: usize,
    position: Option<usize>,
    num_buffers: usize,
) -> (error: Error)
    requires
        position == position_of(globals@, slot),
    ensures
        error matches Error::IrConstruction { details } && details@ == misplaced_message(
            list@,
            kind@,
            globals@,
            slot,
            num_buffers,
        ),
{
    match position {
        None => {
            let mut details = "ProgramSpec.".to_owned();
            details.append(list);
            details.append(" slot ");
            details.append(dec_string(slot as u64).as_str());
            details.append(" not found in ProgramSpec.globals=");
            details.append(dec_list_string(globals).as_str());
            Error::IrConstruction { details }
        }
        Some(position) => {
            let mut details = "ProgramSpec ".to_owned();
            details.append(kind);
            details.append(" index ");
            details.append(dec_string(position as u64).as_str());
            details.append(" (slot ");
            details.append(dec_string(slot as u64).as_str());
            details.append(") out of range for ");
            details.append(dec_string(num_buffers as u64).as_str());
            details.append(" buffers");
            Error::IrConstruction { details }
        }
    }
}

/// What a program without buffers, global slots or output slots fails with.
pub open spec fn output_precheck(globals: Seq<usize>, outs: Seq<usize>, num_buffers: usize) -> Option<Seq<char>> {
    if num_buffers == 0 {
        Some("cannot map outputs for kernel with zero buffers"@)
    } else if globals.len() == 0 {
        Some("ProgramSpec.globals is empty"@)
    } else if outs.len() == 0 {
        Some("ProgramSpec.outs is empty"@)
    } else {
        None
    }
}

/// The outputs of a program can be resolved.
pub open spec fn outputs_ok(globals: Seq<usize>, outs: Seq<usize>, num_buffers: usize) -> bool {
    &&& output_precheck(globals, outs, num_buffers) is None
    &&& forall|k: int| #![trigger outs[k]] 0 <= k < outs.len() ==> placed(globals, outs[k], num_buffers)
}

/// What resolving the outputs of a program gives.
pub open spec fn outputs_resolve(
    globals: Seq<usize>,
    outs: Seq<usize>,
    num_buffers: usize,
    resolved: Result<Vec<usize>, Error>,
) -> bool {
    match resolved {
        Ok(indices) => {
            &&& outputs_ok(globals, outs, num_buffers)
            &&& positions_of(globals, outs, indices@)
            &&& indices@.len() > 0
        },
        Err(error) => error matches Error::IrConstruction { details } && match output_precheck(
            globals,
            outs,
            num_buffers,
        ) {
            Some(message) => details@ == message,
            None => exists|k: int|
                #![trigger outs[k]]
                first_misplaced(globals, outs, num_buffers, k) && details@ == misplaced_message(
                    "outs"@,
                    "output"@,
                    globals,
                    outs[k],
                    num_buffers,
                ),
        },
    }
}

/// The inputs of a program can be resolved.
pub open spec fn inputs_ok(globals: Seq<usize>, ins: Seq<usize>, num_buffers: usize) -> bool {
    forall|k: int| #![trigger ins[k]] 0 <= k < ins.len() ==> placed(globals, ins[k], num_buffers)
}

/// What resolving the inputs of a program gives.
pub open spec fn inputs_resolve(
    globals: Seq<usize>,
    ins: Seq<usize>,
    num_buffers: usize,
    resolved: Result<Vec<usize>, Error>,
) -> bool {
    match resolved {
        Ok(indices) => inputs_ok(globals, ins, num_buffers) && positions_of(globals, ins, indices@),
        Err(error) => exists|k: int|
            #![trigger ins[k]]
            first_misplaced(globals, ins, num_buffers, k) && (error matches Error::IrConstruction { details }
                && details@ == misplaced_message("ins"@, "input"@, globals, ins[k], num_buffers)),
    }
}

/// The buffers that a program writes: the positions of its output slots, each
/// once and ascending, and at least one. Fails for a program without buffers
/// or slots, and at the first output slot that has no buffer.
pub fn output_indices_from_program_metadata(
    globals: &[usize],
    outs: &[usize],
    num_buffers: usize,
) -> (resolved: Result<Vec<usize>, Error>)
    ensures
        outputs_resolve(globals@, outs@, num_buffers, resolved),
        resolved is Ok <==> outputs_ok(globals@, outs@, num_buffers),
{
    if num_buffers == 0 {
        return Err(
            Error::IrConstruction { details: "cannot map outputs for kernel with zero buffers".to_owned() },
        );
    }
    if globals.len() == 0 {
        return Err(Error::IrConstruction { details: "ProgramSpec.globals is empty".to_owned() });
    }
    if outs.len() == 0 {
        return Err(Error::IrConstruction { details: "ProgramSpec.outs is empty".to_owned() });
    }
    match resolve_positions(globals, outs, num_buffers) {
        Ok(indices) => {
            proof {
                let p = position_of(globals@, outs@[0])->0;
                assert(indices@.contains(p));
            }
            Ok(indices)
        }
        Err((k, position)) => {
            let slot = outs[k];
            assert(outs@[k as int] == slot);
            Err(misplaced_error("outs", "output", globals, slot, position, num_buffers))
        }
    }
}

/// The buffers that a program reads: the positions of its input slots, each
/// once and ascending. Fails at the first input slot that has no buffer.
pub fn input_indices_from_program_metadata(
    globals: &[usize],
    ins: &[usize],
    num_buffers: usize,
) -> (resolved: Result<Vec<usize>, Error>)
    ensures
        inputs_resolve(globals@, ins@, num_buffers, resolved),
        resolved is Ok <==> inputs_ok(globals@, ins@, num_buffers),
{
    match resolve_positions(globals, ins, num_buffers) {
        Ok(indices) => Ok(indices),
        Err((k, position)) => {
            let slot = ins[k];
            assert(ins@[k as int] == slot);
            Err(misplaced_error("ins", "input", globals, slot, position, num_buffers))
        }
    }
}

/// The positions that a program's metadata resolves to are buffers that it
/// has.
pub proof fn law_resolved_indices_are_in_range(
    globals: Seq<usize>,
    slots: Seq<usize>,
    indices: Seq<usize>,
    num_buffers: usize,
)
    requires
        positions_of(globals, slots, indices),
        forall|k: int| #![trigger slots[k]] 0 <= k < slots.len() ==> placed(globals, slots[k], num_buffers),
    ensures
        forall|i: int| #![trigger indices[i]] 0 <= i < indices.len() ==> indices[i] < num_buffers,
        indices.len() <= num_buffers,
{
    assert forall|i: int| #![trigger indices[i]] 0 <= i < indices.len() implies indices[i] < num_buffers by {
        let k = choose|k: int|
            #![trigger slots[k]]
            0 <= k < slots.len() && position_of(globals, slots[k]) == Some(indices[i]);
    }
    lemma_ascending_length(indices, indices.len() as int);
}

proof fn lemma_ascending_length(indices: Seq<usize>, k: int)
    requires
        ascending(indices),
        0 <= k <= indices.len(),
    ensures
        k > 0 ==> indices[k - 1] >= k - 1,
    decreases k,
{
    if k > 1 {
        lemma_ascending_length(indices, k - 1);
        assert(indices[k - 2] < indices[k - 1]);
    }
}

} // verus!
