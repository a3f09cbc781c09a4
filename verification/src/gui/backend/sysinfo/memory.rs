//! Memory held by the selected processes, reading by reading.
use vstd::prelude::*;
use std::collections::HashMap;

use crate::gui::backend::sysinfo::{ProcessInfo, ProcessRecord, records};

verus! {

broadcast use vstd::std_specs::hash::group_hash_axioms;

/// Resident memory of `pid` at reading `i` of its history; a process that is
/// not known, or has no metrics for that reading, counts as zero.
pub open spec fn memory_at(history: Map<u32, ProcessRecord>, pid: u32, i: int) -> nat {
    if history.contains_key(pid) && 0 <= i < history[pid].metrics.len() {
        history[pid].metrics[i].memory as nat
    } else {
        0
    }
}

/// Memory of all of `pids` at reading `i`, added up without bound.
pub open spec fn selected_memory_total(history: Map<u32, ProcessRecord>, pids: Seq<u32>, i: int) -> nat
    decreases pids.len(),
{
    if pids.len() == 0 {
        0
    } else {
        selected_memory_total(history, pids.drop_last(), i) + memory_at(history, pids.last(), i)
    }
}

/// The memory of the selected processes at reading `reading`, or `None` where
/// the total does not fit in a `u64`.
pub fn selected_memory_at(pids: &Vec<u32>, process_info: &HashMap<u32, ProcessInfo>, reading: usize) -> (r: Option<u64>)
    ensures
        r == (if selected_memory_total(records(process_info@), pids@, reading as int) <= u64::MAX {
            Some(selected_memory_total(records(process_info@), pids@, reading as int) as u64)
        } else {
            None::<u64>
        }),
{
    let ghost history = records(process_info@);
    let mut total: u64 = 0;
    let mut i: usize = 0;
    while i < pids.len()
        invariant
            i <= pids@.len(),
            history == records(process_info@),
            total == selected_memory_total(history, pids@.take(i as int), reading as int),
        decreases pids@.len() - i,
    {
        let pid = pids[i];
        assert(pids@.take(i as int + 1).drop_last() == pids@.take(i as int));
        assert(pids@.take(i as int + 1).last() == pid);
        let memory: u64 = match process_info.get(&pid) {
            Some(info) => {
                if reading < info.metrics.len() {
                    info.metrics[reading].memory
                } else {
                    0
                }
            },
            None => 0,
        };
        assert(memory == memory_at(history, pid, reading as int));
        match total.checked_add(memory) {
            Some(sum) => {
                total = sum;
            },
            None => {
                proof {
                    lemma_total_grows(history, pids@, i as int + 1, reading as int);
                }
                return None;
            },
        }
        i = i + 1;
    }
    assert(pids@.take(i as int) == pids@);
    Some(total)
}

/// A longer prefix of the pids never holds less memory.
proof fn lemma_total_grows(history: Map<u32, ProcessRecord>, pids: Seq<u32>, k: int, i: int)
    requires
        0 <= k <= pids.len(),
    ensures
        selected_memory_total(history, pids.take(k), i) <= selected_memory_total(history, pids, i),
    decreases pids.len() - k,
{
    if k < pids.len() {
        lemma_total_grows(history, pids, k + 1, i);
        assert(pids.take(k + 1).drop_last() == pids.take(k));
    } else {
        assert(pids.take(k) == pids);
    }
}

} // verus!
