//! Bindings of symbolic variables to concrete values.

use vstd::prelude::*;
use vstd::string::*;

use crate::error::Error;
use crate::text::{dec_int, dec_int_string};

verus! {

/// The first `k` of `entries` as a map, a later entry of a name over an
/// earlier one.
pub open spec fn entries_map(entries: Seq<(String, i64)>, k: nat) -> Map<Seq<char>, i64>
    decreases k,
{
    if k == 0 {
        Map::empty()
    } else {
        entries_map(entries, (k - 1) as nat).insert(entries[k - 1].0@, entries[k - 1].1)
    }
}

/// No two of the first `k` entries share a name.
pub open spec fn distinct_names(entries: Seq<(String, i64)>, k: nat) -> bool {
    forall|i: int, j: int|
        #![trigger entries[i], entries[j]]
        0 <= i < j < k ==> entries[i].0@ != entries[j].0@
}

/// A name is bound by the first `k` entries if and only if one of them holds
/// it, and a name that occurs once is bound to its value.
pub proof fn lemma_entries_map(entries: Seq<(String, i64)>, k: nat)
    requires
        k <= entries.len(),
        distinct_names(entries, k),
    ensures
        forall|i: int|
            #![trigger entries[i]]
            0 <= i < k ==> entries_map(entries, k).contains_pair(entries[i].0@, entries[i].1),
        forall|name: Seq<char>| #[trigger]
            entries_map(entries, k).dom().contains(name) ==> exists|i: int|
                #![trigger entries[i]]
                0 <= i < k && entries[i].0@ == name,
    decreases k,
{
    if k > 0 {
        let p = (k - 1) as nat;
        lemma_entries_map(entries, p);
        assert forall|name: Seq<char>| #[trigger]
            entries_map(entries, k).dom().contains(name) implies exists|i: int|
            #![trigger entries[i]]
            0 <= i < k && entries[i].0@ == name by {
            if name == entries[k - 1].0@ {
                assert(entries[k - 1].0@ == name);
            } else {
                assert(entries_map(entries, p).dom().contains(name));
            }
        }
    }
}

proof fn lemma_entries_map_prefix(a: Seq<(String, i64)>, b: Seq<(String, i64)>, k: nat)
    requires
        k <= a.len(),
        k <= b.len(),
        forall|i: int| 0 <= i < k ==> a[i] == b[i],
    ensures
        entries_map(a, k) == entries_map(b, k),
    decreases k,
{
    if k > 0 {
        lemma_entries_map_prefix(a, b, (k - 1) as nat);
    }
}

/// Variable names with the values they are bound to, in binding order. A name
/// occurs at most once.
#[derive(Debug, PartialEq, Eq)]
pub struct VarVals {
    pub entries: Vec<(String, i64)>,
}

impl View for VarVals {
    type V = Map<Seq<char>, i64>;

    open spec fn view(&self) -> Map<Seq<char>, i64> {
        entries_map(self.entries@, self.entries@.len())
    }
}

/// What a map binds `name` to.
pub open spec fn lookup(vars: Map<Seq<char>, i64>, name: Seq<char>) -> Option<i64> {
    if vars.dom().contains(name) {
        Some(vars[name])
    } else {
        None
    }
}

impl VarVals {
    /// No name occurs twice.
    pub open spec fn wf(&self) -> bool {
        distinct_names(self.entries@, self.entries@.len())
    }

    /// No bindings.
    pub fn new() -> (vars: VarVals)
        ensures
            vars.wf(),
            vars@ == Map::<Seq<char>, i64>::empty(),
            vars.entries@.len() == 0,
    {
        VarVals { entries: Vec::new() }
    }

    /// The value that `name` is bound to.
    pub fn get(&self, name: &str) -> (value: Option<i64>)
        requires
            self.wf(),
        ensures
            value == lookup(self@, name@),
    {
        let mut i: usize = 0;
        proof {
            lemma_entries_map(self.entries@, self.entries@.len());
        }
        while i < self.entries.len()
            invariant
                i <= self.entries@.len(),
                forall|j: int|
                    #![trigger self.entries@[j]]
                    0 <= j < i ==> self.entries@[j].0@ != name@,
                forall|j: int|
                    #![trigger self.entries@[j]]
                    0 <= j < self.entries@.len() ==> self@.contains_pair(
                        self.entries@[j].0@,
                        self.entries@[j].1,
                    ),
            decreases self.entries@.len() - i,
        {
            if str_eq(self.entries[i].0.as_str(), name) {
                return Some(self.entries[i].1);
            }
            i = i + 1;
        }
        None
    }

    /// Binds `name` to `val`, whatever it was bound to.
    pub fn set(&mut self, name: &str, val: i64)
        requires
            old(self).wf(),
        ensures
            final(self).wf(),
            final(self)@ == old(self)@.insert(name@, val),
    {
        let ghost before = self.entries@;
        proof {
            lemma_entries_map(before, before.len());
        }
        let mut i: usize = 0;
        while i < self.entries.len()
            invariant
                i <= self.entries@.len(),
                self.entries@ == before,
                before == old(self).entries@,
                distinct_names(before, before.len()),
                forall|j: int| #![trigger before[j]] 0 <= j < i ==> before[j].0@ != name@,
            decreases self.entries@.len() - i,
        {
            if str_eq(self.entries[i].0.as_str(), name) {
                let kept = self.entries[i].0.clone();
                self.entries.set(i, (kept, val));
                proof {
                    let after = self.entries@;
                    assert(distinct_names(after, after.len())) by {
                        assert forall|p: int, q: int|
                            #![trigger after[p], after[q]]
                            0 <= p < q < after.len() implies after[p].0@ != after[q].0@ by {
                            assert(before[p].0@ != before[q].0@);
                        }
                    }
                    lemma_entries_map(before, before.len());
                    lemma_entries_map(after, after.len());
                    assert forall|key: Seq<char>| #[trigger] self@.dom().contains(key) <==> entries_map(
                        before,
                        before.len(),
                    ).insert(name@, val).dom().contains(key) by {
                        if self@.dom().contains(key) {
                            let j = choose|j: int| #![trigger after[j]] 0 <= j < after.len() && after[j].0@ == key;
                            assert(before[j].0@ == key);
                        }
                        if entries_map(before, before.len()).dom().contains(key) {
                            let j = choose|j: int| #![trigger before[j]] 0 <= j < before.len() && before[j].0@ == key;
                            assert(after[j].0@ == key);
                        }
                        assert(after[i as int].0@ == name@);
                    }
                    assert forall|key: Seq<char>| #[trigger] self@.dom().contains(key) implies self@[key]
                        == entries_map(before, before.len()).insert(name@, val)[key] by {
                        let j = choose|j: int| #![trigger after[j]] 0 <= j < after.len() && after[j].0@ == key;
                        if j == i {
                            assert(self@.contains_pair(after[j].0@, val));
                        } else {
                            assert(after[j] == before[j]);
                            assert(before[i as int].0@ == name@);
                            assert(before[j].0@ != name@);
                        }
                    }
                    assert(self@ =~= entries_map(before, before.len()).insert(name@, val));
                }
                return;
            }
            i = i + 1;
        }
        self.entries.push((name.to_owned(), val));
        proof {
            lemma_entries_map_prefix(before, self.entries@, before.len());
        }
    }

    /// A copy with the same bindings in the same order.
    pub fn copy(&self) -> (copy: VarVals)
        ensures
            copy.entries@ == self.entries@,
            copy@ == self@,
            copy.wf() == self.wf(),
    {
        let mut entries: Vec<(String, i64)> = Vec::new();
        let mut i: usize = 0;
        while i < self.entries.len()
            invariant
                i <= self.entries@.len(),
                entries@ == self.entries@.subrange(0, i as int),
            decreases self.entries@.len() - i,
        {
            entries.push((self.entries[i].0.clone(), self.entries[i].1));
            i = i + 1;
        }
        assert(entries@ =~= self.entries@);
        VarVals { entries }
    }
}

/// Whether two strings are the same.
pub fn str_eq(a: &str, b: &str) -> (same: bool)
    ensures
        same == (a@ == b@),
{
    let x = a.to_owned();
    let y = b.to_owned();
    x == y
}

/// Binds `name` to `val` unless it is bound to another value already: then
/// the existing value and the new one come back and nothing changes.
pub fn try_bind_var_val(var_vals: &mut VarVals, name: &str, val: i64) -> (bound: Result<(), (i64, i64)>)
    requires
        old(var_vals).wf(),
    ensures
        final(var_vals).wf(),
        match lookup(old(var_vals)@, name@) {
            None => bound is Ok && final(var_vals)@ == old(var_vals)@.insert(name@, val),
            Some(prev) => *final(var_vals) == *old(var_vals) && bound == if prev == val {
                Ok::<(), (i64, i64)>(())
            } else {
                Err((prev, val))
            },
        },
{
    match var_vals.get(name) {
        Some(prev) => {
            if prev != val {
                return Err((prev, val));
            }
            Ok(())
        }
        None => {
            proof {
                let old_entries = var_vals.entries@;
                lemma_entries_map(old_entries, old_entries.len());
            }
            let ghost before = var_vals.entries@;
            var_vals.entries.push((name.to_owned(), val));
            proof {
                lemma_entries_map_prefix(before, var_vals.entries@, before.len());
            }
            Ok(())
        }
    }
}

/// The text of a conflict between two values for `name` met in `context`.
pub open spec fn bind_mismatch(name: Seq<char>, prev: i64, val: i64, context: Seq<char>) -> Seq<char> {
    "bind mismatch on "@ + name + ", "@ + dec_int(prev as int) + " != "@ + dec_int(val as int) + " ("@
        + context + ")"@
}

/// Binds `name` to `val`; a conflict with an existing value is an error that
/// names `context`, and then nothing changes.
pub fn insert_var_val_checked(
    var_vals: &mut VarVals,
    name: &str,
    val: i64,
    context: &str,
) -> (bound: Result<(), Error>)
    requires
        old(var_vals).wf(),
    ensures
        final(var_vals).wf(),
        match lookup(old(var_vals)@, name@) {
            None => bound is Ok && final(var_vals)@ == old(var_vals)@.insert(name@, val),
            Some(prev) => *final(var_vals) == *old(var_vals) && if prev == val {
                bound is Ok
            } else {
                bound matches Err(Error::IrConstruction { details }) && details@ == bind_mismatch(
                    name@,
                    prev,
                    val,
                    context@,
                )
            },
        },
{
    match try_bind_var_val(var_vals, name, val) {
        Ok(()) => Ok(()),
        Err((prev, val)) => {
            let mut details = "bind mismatch on ".to_owned();
            details.append(name);
            details.append(", ");
            details.append(dec_int_string(prev).as_str());
            details.append(" != ");
            details.append(dec_int_string(val).as_str());
            details.append(" (");
            details.append(context);
            details.append(")");
            Err(Error::IrConstruction { details })
        }
    }
}

/// Entry `k` of `src` is the first that contradicts `dst`.
pub open spec fn first_conflict(
    dst: Map<Seq<char>, i64>,
    src: Seq<(String, i64)>,
    k: int,
) -> bool {
    &&& 0 <= k < src.len()
    &&& dst.dom().contains(src[k].0@)
    &&& dst[src[k].0@] != src[k].1
    &&& forall|i: int|
        #![trigger src[i]]
        0 <= i < k && dst.dom().contains(src[i].0@) ==> dst[src[i].0@] == src[i].1
}

/// Adds the bindings of `src` to `dst`, in order. It succeeds if and only if
/// the two agree on every name both bind; the first name on which they do not
/// is the error, and what came before it has been added.
pub fn merge_var_vals_checked(dst: &mut VarVals, src: &VarVals, context: &str) -> (merged: Result<(), Error>)
    requires
        old(dst).wf(),
        src.wf(),
    ensures
        final(dst).wf(),
        merged is Ok <==> old(dst)@.agrees(src@),
        merged is Ok ==> final(dst)@ == old(dst)@.union_prefer_right(src@),
        merged matches Err(error) ==> exists|k: int|
            #![trigger src.entries@[k]]
            first_conflict(old(dst)@, src.entries@, k)
            && final(dst)@ == old(dst)@.union_prefer_right(entries_map(src.entries@, k as nat))
            && (error matches Error::IrConstruction { details } && details@ == bind_mismatch(
                src.entries@[k].0@,
                old(dst)@[src.entries@[k].0@],
                src.entries@[k].1,
                context@,
            )),
{
    let mut i: usize = 0;
    let ghost before = dst@;
    let ghost entries = src.entries@;
    proof {
        lemma_entries_map(entries, entries.len());
        assert(before.union_prefer_right(entries_map(entries, 0)) =~= before);
    }
    while i < src.entries.len()
        invariant
            i <= entries.len(),
            entries == src.entries@,
            src.wf(),
            dst.wf(),
            before == old(dst)@,
            dst@ == before.union_prefer_right(entries_map(entries, i as nat)),
            forall|j: int|
                #![trigger entries[j]]
                0 <= j < i && before.dom().contains(entries[j].0@) ==> before[entries[j].0@] == entries[j].1,
            forall|j: int|
                #![trigger entries[j]]
                0 <= j < entries.len() ==> src@.contains_pair(entries[j].0@, entries[j].1),
        decreases entries.len() - i,
    {
        proof {
            lemma_entries_map(entries, i as nat);
        }
        let ghost current = dst@;
        let ghost name = entries[i as int].0@;
        assert(!entries_map(entries, i as nat).dom().contains(name));
        assert(lookup(current, name) == lookup(before, name));
        match insert_var_val_checked(dst, src.entries[i].0.as_str(), src.entries[i].1, context) {
            Ok(()) => {}
            Err(error) => {
                proof {
                    assert(first_conflict(before, entries, i as int));
                    assert(!before.agrees(src@)) by {
                        assert(before.dom().contains(name) && src@.dom().contains(name));
                        assert(before[name] != src@[name]);
                    }
                }
                return Err(error);
            }
        }
        proof {
            assert(entries_map(entries, (i + 1) as nat) == entries_map(entries, i as nat).insert(
                name,
                entries[i as int].1,
            ));
            assert(dst@ =~= before.union_prefer_right(entries_map(entries, (i + 1) as nat)));
        }
        i = i + 1;
    }
    proof {
        assert(before.agrees(src@)) by {
            assert forall|name: Seq<char>| #[trigger]
                before.dom().contains(name) && src@.dom().contains(name) implies before[name] == src@[name] by {
                let j = choose|j: int|
                    #![trigger entries[j]]
                    0 <= j < entries.len() && entries[j].0@ == name;
                assert(before[entries[j].0@] == entries[j].1);
            }
        }
    }
    Ok(())
}

} // verus!
