//! The process list: which processes it shows, in which order, and how the
//! tree view nests them under their parents.
use vstd::prelude::*;
use std::collections::{HashMap, HashSet};
use vstd::std_specs::iter::IteratorSpec;

use crate::gui::backend::sysinfo::{
    after_click, lemma_push_to_set, ProcessDetail, ProcessInfo, ProcessMetrics, ProcessSelection,
};
use crate::text::{
    has_substring, occurs_at, lemma_text_before_irreflexive, lemma_text_before_total, lemma_text_before_transitive, text_before,
    text_contains, text_precedes,
};
use crate::gui::backend::sysinfo::process_tree::{distinct_pids, tree_layout, tree_order, TreeRow};

verus! {

broadcast use vstd::std_specs::hash::group_hash_axioms;

/// A column of the process table.
#[derive(Debug, Clone, Copy, PartialEq, Eq, Structural)]
pub enum ProcessColumn {
    Pid,
    Name,
    CpuUsage,
    CpuTime,
    MemoryUsage,
}

/// The header of each column.
pub open spec fn column_title(column: ProcessColumn) -> Seq<char> {
    match column {
        ProcessColumn::Pid => "PID"@,
        ProcessColumn::Name => "Name"@,
        ProcessColumn::CpuUsage => "CPU %"@,
        ProcessColumn::CpuTime => "CPU Time"@,
        ProcessColumn::MemoryUsage => "Memory"@,
    }
}

/// The columns that can be added, in the order the menu offers them.
pub open spec fn column_menu() -> Seq<ProcessColumn> {
    seq![
        ProcessColumn::Pid,
        ProcessColumn::Name,
        ProcessColumn::CpuUsage,
        ProcessColumn::CpuTime,
        ProcessColumn::MemoryUsage,
    ]
}

impl ProcessColumn {
    /// The column's header text.
    pub fn text(&self) -> (r: &'static str)
        ensures
            r@ == column_title(*self),
    {
        match self {
            ProcessColumn::Pid => "PID",
            ProcessColumn::Name => "Name",
            ProcessColumn::CpuUsage => "CPU %",
            ProcessColumn::CpuTime => "CPU Time",
            ProcessColumn::MemoryUsage => "Memory",
        }
    }
}

/// The columns of the menu that the table does not show yet, in menu order.
pub open spec fn addable(shown: Seq<ProcessColumn>) -> Seq<ProcessColumn> {
    column_menu().filter(|c: ProcessColumn| !shown.contains(c))
}

/// Which columns the "Add column" menu offers: those not shown yet.
pub fn addable_columns(shown: &Vec<ProcessColumn>) -> (r: Vec<ProcessColumn>)
    ensures
        r@ == addable(shown@),
{
    let menu = vec![
        ProcessColumn::Pid,
        ProcessColumn::Name,
        ProcessColumn::CpuUsage,
        ProcessColumn::CpuTime,
        ProcessColumn::MemoryUsage,
    ];
    assert(menu@ == column_menu());
    let mut r: Vec<ProcessColumn> = Vec::new();
    let mut i: usize = 0;
    while i < menu.len()
        invariant
            i <= menu@.len(),
            menu@ == column_menu(),
            r@ == menu@.take(i as int).filter(|c: ProcessColumn| !shown@.contains(c)),
        decreases menu@.len() - i,
    {
        let column = menu[i];
        let mut present = false;
        let mut j: usize = 0;
        while j < shown.len()
            invariant
                j <= shown@.len(),
                present == (exists|q: int| 0 <= q < j && shown@[q] == column),
            decreases shown@.len() - j,
        {
            if shown[j] == column {
                present = true;
            }
            j = j + 1;
        }
        assert(present == shown@.contains(column));
        assert(menu@.take(i as int + 1).drop_last() == menu@.take(i as int));
        reveal(Seq::filter);
        if !present {
            r.push(column);
        }
        i = i + 1;
    }
    assert(menu@.take(menu@.len() as int) == menu@);
    r
}

/// Removes a column from the table.
pub fn remove_column(columns: &mut Vec<ProcessColumn>, column: ProcessColumn)
    ensures
        final(columns)@ == old(columns)@.filter(|c: ProcessColumn| c != column),
{
    let ghost start = columns@;
    let mut kept: Vec<ProcessColumn> = Vec::new();
    let mut i: usize = 0;
    while i < columns.len()
        invariant
            columns@ == start,
            i <= start.len(),
            kept@ == start.take(i as int).filter(|c: ProcessColumn| c != column),
        decreases start.len() - i,
    {
        assert(start.take(i as int + 1).drop_last() == start.take(i as int));
        reveal(Seq::filter);
        if columns[i] != column {
            kept.push(columns[i]);
        }
        i = i + 1;
    }
    assert(start.take(start.len() as int) == start);
    *columns = kept;
}

/// Which way the process table is sorted.
#[derive(Debug, Clone, Copy, PartialEq, Eq, Structural)]
pub enum SortDirection {
    Ascending,
    Descending,
}

impl SortDirection {
    /// The other direction, as a click on the header's arrow gives it.
    pub fn flipped(self) -> (r: Self)
        ensures
            r != self,
    {
        match self {
            SortDirection::Ascending => SortDirection::Descending,
            SortDirection::Descending => SortDirection::Ascending,
        }
    }
}

/// The latest metrics of a process, or zeros where it has none.
pub open spec fn latest_metrics(info: ProcessInfo) -> ProcessMetrics {
    if info.metrics@.len() > 0 {
        info.metrics@.last()
    } else {
        ProcessMetrics::spec_zero()
    }
}

/// The order of the process table before its direction is applied: by
/// identifier or name ascending, or by CPU usage, CPU time or memory largest
/// first, ties broken by identifier. CPU usage is compared by the bit
/// pattern of the `f32` reading, which orders non-negative readings as their
/// values.
pub open spec fn sorts_before(info: Map<u32, ProcessInfo>, column: ProcessColumn, a: u32, b: u32) -> bool {
    match column {
        ProcessColumn::Pid => a < b,
        ProcessColumn::Name => {
            let (x, y) = (info[a].detail.name@, info[b].detail.name@);
            text_before(x, y) || (x == y && a < b)
        },
        ProcessColumn::CpuUsage => {
            let (x, y) = (latest_metrics(info[a]).cpu_usage_bits, latest_metrics(info[b]).cpu_usage_bits);
            x > y || (x == y && a < b)
        },
        ProcessColumn::CpuTime => {
            let (x, y) = (
                info[a].detail.accumulated_cpu_time.total_nanos(),
                info[b].detail.accumulated_cpu_time.total_nanos(),
            );
            x > y || (x == y && a < b)
        },
        ProcessColumn::MemoryUsage => {
            let (x, y) = (latest_metrics(info[a]).memory, latest_metrics(info[b]).memory);
            x > y || (x == y && a < b)
        },
    }
}

/// The newest memory reading of a process: the last of its metrics, or
/// zero when it has none.
pub open spec fn newest_memory(info: ProcessInfo) -> u64 {
    let n = info.metrics@.len();
    if n == 0 {
        0
    } else {
        info.metrics@[n - 1].memory
    }
}

/// The newest CPU usage reading of a process (as the bit pattern of its
/// `f32`): the last of its metrics, or zero when it has none.
pub open spec fn newest_cpu_bits(info: ProcessInfo) -> u32 {
    let n = info.metrics@.len();
    if n == 0 {
        0
    } else {
        info.metrics@[n - 1].cpu_usage_bits
    }
}

/// A table sorted by memory or by CPU usage (as [`sort_pids`] leaves it) is
/// ordered by each process's newest reading, largest first, whatever its
/// older readings; by CPU time, largest first; by identifier, smallest first.
/// Equal keys are ordered by identifier.
pub proof fn lemma_sorted_by_newest_reading(info: Map<u32, ProcessInfo>, column: ProcessColumn, r: Seq<u32>)
    requires
        forall|i: int, j: int|
            0 <= i < j < r.len() ==> !sorts_before(info, column, #[trigger] r[j], #[trigger] r[i]),
    ensures
        column == ProcessColumn::MemoryUsage ==> forall|i: int, j: int|
            0 <= i < j < r.len() ==> newest_memory(info[#[trigger] r[i]]) > newest_memory(info[#[trigger] r[j]])
                || (newest_memory(info[r[i]]) == newest_memory(info[r[j]]) && r[i] <= r[j]),
        column == ProcessColumn::CpuUsage ==> forall|i: int, j: int|
            0 <= i < j < r.len() ==> newest_cpu_bits(info[#[trigger] r[i]]) > newest_cpu_bits(
                info[#[trigger] r[j]],
            ) || (newest_cpu_bits(info[r[i]]) == newest_cpu_bits(info[r[j]]) && r[i] <= r[j]),
        column == ProcessColumn::Pid ==> forall|i: int, j: int|
            0 <= i < j < r.len() ==> #[trigger] r[i] <= #[trigger] r[j],
        column == ProcessColumn::CpuTime ==> forall|i: int, j: int|
            0 <= i < j < r.len() ==> info[#[trigger] r[i]].detail.accumulated_cpu_time.total_nanos()
                > info[#[trigger] r[j]].detail.accumulated_cpu_time.total_nanos() || (
            info[r[i]].detail.accumulated_cpu_time.total_nanos() == info[r[j]].detail.accumulated_cpu_time.total_nanos()
                && r[i] <= r[j]),
{
    assert forall|x: u32| #[trigger] latest_metrics(info[x]).memory == newest_memory(info[x])
        && latest_metrics(info[x]).cpu_usage_bits == newest_cpu_bits(info[x]) by {}
}

/// The UTF-8 bytes of `filter` occur as a run in those of `text`.
pub open spec fn text_shows(text: Seq<char>, filter: Seq<char>) -> bool {
    exists|k: int| #[trigger] occurs_at(vstd::utf8::encode_utf8(text), vstd::utf8::encode_utf8(filter), k)
}

/// Which processes the list holds, in either direction: exactly the ranked
/// processes that are not threads (unless threads are shown) and whose name
/// or one of whose arguments contains the filter text.
pub proof fn lemma_listing_filters(
    ranked: Seq<u32>,
    info: Map<u32, ProcessInfo>,
    filter: Seq<char>,
    show_threads: bool,
    direction: SortDirection,
)
    ensures
        forall|q: u32|
            #[trigger] listing(ranked, info, filter, show_threads, direction).contains(q) <==> {
                &&& ranked.contains(q)
                &&& show_threads || info[q].detail.thread_kind is None
                &&& text_shows(info[q].detail.name@, filter) || exists|a: int|
                    0 <= a < info[q].detail.cmd@.len() && text_shows(#[trigger] info[q].detail.cmd@[a]@, filter)
            },
{
    let desc = listed_in_order(ranked, info, filter, show_threads);
    assert forall|q: u32|
        #[trigger] listing(ranked, info, filter, show_threads, direction).contains(q) <==> {
            &&& ranked.contains(q)
            &&& show_threads || info[q].detail.thread_kind is None
            &&& text_shows(info[q].detail.name@, filter) || exists|a: int|
                0 <= a < info[q].detail.cmd@.len() && text_shows(#[trigger] info[q].detail.cmd@[a]@, filter)
        } by {
        lemma_listed_membership(ranked, info, filter, show_threads, q);
        let asc = desc.reverse();
        assert(asc.contains(q) <==> desc.contains(q)) by {
            if asc.contains(q) {
                let i = choose|i: int| 0 <= i < asc.len() && asc[i] == q;
                assert(desc[desc.len() - 1 - i] == q);
            }
            if desc.contains(q) {
                let i = choose|i: int| 0 <= i < desc.len() && desc[i] == q;
                assert(asc[desc.len() - 1 - i] == q);
            }
        }
    }
}

/// Hidden threads stay hidden: when threads are not shown, the list holds no
/// thread, whatever the filter text and the direction.
pub proof fn lemma_threads_hidden(
    ranked: Seq<u32>,
    info: Map<u32, ProcessInfo>,
    filter: Seq<char>,
    direction: SortDirection,
)
    ensures
        forall|q: u32|
            #[trigger] listing(ranked, info, filter, false, direction).contains(q) ==> info[q].detail.thread_kind
                is None,
{
    let desc = listed_in_order(ranked, info, filter, false);
    assert forall|q: u32|
        #[trigger] listing(ranked, info, filter, false, direction).contains(q) implies info[q].detail.thread_kind
        is None by {
        lemma_listed_membership(ranked, info, filter, false, q);
        if direction == SortDirection::Ascending {
            let asc = desc.reverse();
            let i = choose|i: int| 0 <= i < asc.len() && asc[i] == q;
            assert(desc[desc.len() - 1 - i] == q);
        }
    }
}

/// The table order is a strict order.
pub proof fn lemma_sorts_before_strict(info: Map<u32, ProcessInfo>, column: ProcessColumn, a: u32, b: u32, c: u32)
    ensures
        !sorts_before(info, column, a, a),
        sorts_before(info, column, a, b) && sorts_before(info, column, b, c) ==> sorts_before(info, column, a, c),
{
    if column == ProcessColumn::Name {
        lemma_text_before_irreflexive(info[a].detail.name@);
        if sorts_before(info, column, a, b) && sorts_before(info, column, b, c) {
            let (x, y, z) = (info[a].detail.name@, info[b].detail.name@, info[c].detail.name@);
            if text_before(x, y) && text_before(y, z) {
                lemma_text_before_transitive(x, y, z);
            }
        }
    }
}

/// Of two different processes, one comes before the other, so the table
/// order is a total one and the sorted table is determined.
pub proof fn lemma_sorts_before_total(info: Map<u32, ProcessInfo>, column: ProcessColumn, a: u32, b: u32)
    requires
        a != b,
    ensures
        sorts_before(info, column, a, b) || sorts_before(info, column, b, a),
{
    if info[a].detail.name@ != info[b].detail.name@ {
        lemma_text_before_total(info[a].detail.name@, info[b].detail.name@);
    }
}

/// The latest metrics of a process.
fn latest_of(info: &ProcessInfo) -> (r: ProcessMetrics)
    ensures
        r == latest_metrics(*info),
{
    let n = info.metrics.len();
    if n > 0 {
        info.metrics[n - 1]
    } else {
        ProcessMetrics::zero()
    }
}

/// Whether `a` comes before `b` in the table order for `column`.
fn precedes(process_info: &HashMap<u32, ProcessInfo>, column: ProcessColumn, a: u32, b: u32) -> (r: bool)
    requires
        process_info@.contains_key(a),
        process_info@.contains_key(b),
    ensures
        r == sorts_before(process_info@, column, a, b),
{
    let x = match process_info.get(&a) {
        Some(x) => x,
        None => {
            return false;
        },
    };
    let y = match process_info.get(&b) {
        Some(y) => y,
        None => {
            return false;
        },
    };
    match column {
        ProcessColumn::Pid => a < b,
        ProcessColumn::Name => {
            if text_precedes(x.detail.name.as_str(), y.detail.name.as_str()) {
                true
            } else {
                a < b && !text_precedes(y.detail.name.as_str(), x.detail.name.as_str())
                    && crate::text::same_text(x.detail.name.as_str(), y.detail.name.as_str())
            }
        },
        ProcessColumn::CpuUsage => {
            let (p, q) = (latest_of(x).cpu_usage_bits, latest_of(y).cpu_usage_bits);
            p > q || (p == q && a < b)
        },
        ProcessColumn::CpuTime => {
            let (p, q) = (x.detail.accumulated_cpu_time.as_nanos(), y.detail.accumulated_cpu_time.as_nanos());
            p > q || (p == q && a < b)
        },
        ProcessColumn::MemoryUsage => {
            let (p, q) = (latest_of(x).memory, latest_of(y).memory);
            p > q || (p == q && a < b)
        },
    }
}

/// Orders the processes for the table: the same identifiers, each as often,
/// arranged so that none comes before one placed ahead of it (see
/// [`sorts_before`]).
pub fn sort_pids(pids: &Vec<u32>, process_info: &HashMap<u32, ProcessInfo>, column: ProcessColumn) -> (r: Vec<u32>)
    requires
        forall|i: int| 0 <= i < pids@.len() ==> process_info@.contains_key(#[trigger] pids@[i]),
    ensures
        r@.to_multiset() == pids@.to_multiset(),
        forall|i: int, j: int| 0 <= i < j < r@.len() ==> !sorts_before(process_info@, column, #[trigger] r@[j], #[trigger] r@[i]),
{
    let ghost info = process_info@;
    let mut out: Vec<u32> = Vec::new();
    let mut i: usize = 0;
    assert(out@ =~= pids@.take(0));
    while i < pids.len()
        invariant
            i <= pids@.len(),
            info == process_info@,
            forall|q: int| 0 <= q < pids@.len() ==> info.contains_key(#[trigger] pids@[q]),
            forall|q: int| 0 <= q < out@.len() ==> info.contains_key(#[trigger] out@[q]),
            out@.to_multiset() == pids@.take(i as int).to_multiset(),
            forall|a: int, b: int| 0 <= a < b < out@.len() ==> !sorts_before(info, column, #[trigger] out@[b], #[trigger] out@[a]),
        decreases pids@.len() - i,
    {
        let x = pids[i];
        let mut p: usize = 0;
        while p < out.len() && !precedes(process_info, column, x, out[p])
            invariant
                p <= out@.len(),
                info == process_info@,
                info.contains_key(x),
                forall|q: int| 0 <= q < out@.len() ==> info.contains_key(#[trigger] out@[q]),
                forall|q: int| 0 <= q < p ==> !sorts_before(info, column, x, #[trigger] out@[q]),
            decreases out@.len() - p,
        {
            p = p + 1;
        }
        let ghost old_out = out@;
        proof {
            if p < old_out.len() {
                assert(sorts_before(info, column, x, old_out[p as int]));
            }
        }
        out.insert(p, x);
        proof {
            assert(pids@.take(i as int + 1) =~= pids@.take(i as int).push(x));
            assert(out@ == old_out.insert(p as int, x));
            vstd::seq_lib::to_multiset_insert(old_out, p as int, x);
            vstd::seq_lib::to_multiset_build(pids@.take(i as int), x);
            assert forall|a: int, b: int| 0 <= a < b < out@.len() implies !sorts_before(info, column, #[trigger] out@[b], #[trigger] out@[a]) by {
                if b < p {
                    assert(out@[a] == old_out[a] && out@[b] == old_out[b]);
                } else if b == p {
                    assert(out@[a] == old_out[a]);
                } else if a < p {
                    assert(out@[a] == old_out[a] && out@[b] == old_out[b - 1]);
                } else if a == p {
                    let y = old_out[b - 1];
                    assert(out@[b] == y);
                    let head = old_out[p as int];
                    lemma_sorts_before_strict(info, column, y, x, head);
                    lemma_sorts_before_strict(info, column, x, head, x);
                    if b - 1 > p {
                        assert(!sorts_before(info, column, old_out[b - 1], old_out[p as int]));
                    }
                } else {
                    assert(out@[a] == old_out[a - 1] && out@[b] == old_out[b - 1]);
                }
            }
            assert forall|q: int| 0 <= q < out@.len() implies info.contains_key(#[trigger] out@[q]) by {
                if q < p {
                    assert(out@[q] == old_out[q]);
                } else if q > p {
                    assert(out@[q] == old_out[q - 1]);
                }
            }
        }
        i = i + 1;
    }
    assert(pids@.take(i as int) =~= pids@);
    out
}

/// A process's name or one of its arguments contains `filter`.
pub open spec fn matches_filter(detail: ProcessDetail, filter: Seq<char>) -> bool {
    ||| has_substring(vstd::utf8::encode_utf8(detail.name@), vstd::utf8::encode_utf8(filter))
    ||| exists|a: int|
        0 <= a < detail.cmd@.len() && has_substring(
            vstd::utf8::encode_utf8(#[trigger] detail.cmd@[a]@),
            vstd::utf8::encode_utf8(filter),
        )
}

/// The list shows a process: threads only when asked for, and only those
/// that match the filter (an empty filter matches everything).
pub open spec fn is_listed(info: ProcessInfo, filter: Seq<char>, show_threads: bool) -> bool {
    &&& info.detail.thread_kind is None || show_threads
    &&& matches_filter(info.detail, filter)
}

/// The processes of `ranked` that the list shows, in the same order.
pub open spec fn listed_in_order(
    ranked: Seq<u32>,
    info: Map<u32, ProcessInfo>,
    filter: Seq<char>,
    show_threads: bool,
) -> Seq<u32>
    decreases ranked.len(),
{
    if ranked.len() == 0 {
        Seq::empty()
    } else {
        let rest = listed_in_order(ranked.drop_last(), info, filter, show_threads);
        if is_listed(info[ranked.last()], filter, show_threads) {
            rest.push(ranked.last())
        } else {
            rest
        }
    }
}

/// A process is in the list exactly when it is ranked and the list shows it:
/// a thread only when threads are shown, and only if it matches the filter.
pub proof fn lemma_listed_membership(
    ranked: Seq<u32>,
    info: Map<u32, ProcessInfo>,
    filter: Seq<char>,
    show_threads: bool,
    q: u32,
)
    ensures
        listed_in_order(ranked, info, filter, show_threads).contains(q) <==> (ranked.contains(q) && is_listed(
            info[q],
            filter,
            show_threads,
        )),
    decreases ranked.len(),
{
    if ranked.len() > 0 {
        let front = ranked.drop_last();
        let last = ranked.last();
        lemma_listed_membership(front, info, filter, show_threads, q);
        let rest = listed_in_order(front, info, filter, show_threads);
        assert(ranked =~= front.push(last));
        assert(ranked.contains(q) <==> (front.contains(q) || q == last)) by {
            if ranked.contains(q) {
                let i = choose|i: int| 0 <= i < ranked.len() && ranked[i] == q;
                if i < front.len() {
                    assert(front[i] == q);
                }
            }
            if front.contains(q) {
                let i = choose|i: int| 0 <= i < front.len() && front[i] == q;
                assert(ranked[i] == q);
            }
            if q == last {
                assert(ranked[ranked.len() - 1] == q);
            }
        }
        if is_listed(info[last], filter, show_threads) {
            let out = rest.push(last);
            assert(out.contains(q) <==> (rest.contains(q) || q == last)) by {
                if out.contains(q) {
                    let i = choose|i: int| 0 <= i < out.len() && out[i] == q;
                    if i < rest.len() {
                        assert(rest[i] == q);
                    }
                }
                if rest.contains(q) {
                    let i = choose|i: int| 0 <= i < rest.len() && rest[i] == q;
                    assert(out[i] == q);
                }
                if q == last {
                    assert(out[rest.len() as int] == q);
                }
            }
        }
    }
}

/// The list in display order: the processes of `ranked` that the list
/// shows, in that order, reversed when sorted ascending.
pub open spec fn listing(
    ranked: Seq<u32>,
    info: Map<u32, ProcessInfo>,
    filter: Seq<char>,
    show_threads: bool,
    direction: SortDirection,
) -> Seq<u32> {
    match direction {
        SortDirection::Descending => listed_in_order(ranked, info, filter, show_threads),
        SortDirection::Ascending => listed_in_order(ranked, info, filter, show_threads).reverse(),
    }
}

/// Keeping some processes of a list with no repeats leaves no repeats.
proof fn lemma_listed_distinct(ranked: Seq<u32>, info: Map<u32, ProcessInfo>, filter: Seq<char>, show_threads: bool)
    requires
        distinct_pids(ranked),
    ensures
        distinct_pids(listed_in_order(ranked, info, filter, show_threads)),
    decreases ranked.len(),
{
    if ranked.len() > 0 {
        let front = ranked.drop_last();
        let last = ranked.last();
        lemma_listed_distinct(front, info, filter, show_threads);
        let rest = listed_in_order(front, info, filter, show_threads);
        if is_listed(info[last], filter, show_threads) {
            lemma_listed_membership(front, info, filter, show_threads, last);
            assert(!front.contains(last)) by {
                if front.contains(last) {
                    let i = choose|i: int| 0 <= i < front.len() && front[i] == last;
                    assert(ranked[i] == ranked[ranked.len() - 1]);
                }
            }
            let out = rest.push(last);
            assert forall|a: int, b: int|
                0 <= a < out.len() && 0 <= b < out.len() && a != b implies #[trigger] out[a] != #[trigger] out[b] by {
                if a == rest.len() {
                    assert(rest[b] == out[b]);
                    assert(rest.contains(out[b]));
                } else if b == rest.len() {
                    assert(rest[a] == out[a]);
                    assert(rest.contains(out[a]));
                } else {
                    assert(rest[a] == out[a]);
                    assert(rest[b] == out[b]);
                }
            }
        }
    }
}

/// What the process list shows, whole. Given the identifiers `all` of the
/// process table, each once, ranked in any order (`ranked` holds the same
/// identifiers, as [`sort_pids`] leaves them): the list shows no process
/// twice; it shows exactly the processes of the table that it lists (a thread
/// only when threads are shown, and only those matching the filter); and the
/// list sorted ascending is the list sorted descending, reversed.
pub proof fn lemma_listing_law(
    all: Seq<u32>,
    ranked: Seq<u32>,
    info: Map<u32, ProcessInfo>,
    filter: Seq<char>,
    show_threads: bool,
)
    requires
        all.no_duplicates(),
        all.to_set() == info.dom(),
        ranked.to_multiset() == all.to_multiset(),
    ensures
        forall|d: SortDirection| distinct_pids(#[trigger] listing(ranked, info, filter, show_threads, d)),
        forall|d: SortDirection, q: u32|
            #[trigger] listing(ranked, info, filter, show_threads, d).contains(q) <==> (info.dom().contains(q)
                && is_listed(info[q], filter, show_threads)),
        listing(ranked, info, filter, show_threads, SortDirection::Ascending) == listing(
            ranked,
            info,
            filter,
            show_threads,
            SortDirection::Descending,
        ).reverse(),
{
    broadcast use vstd::seq_lib::group_to_multiset_ensures;
    all.lemma_multiset_has_no_duplicates();
    ranked.lemma_multiset_has_no_duplicates_conv();
    assert(distinct_pids(ranked)) by {
        assert forall|a: int, b: int|
            0 <= a < ranked.len() && 0 <= b < ranked.len() && a != b implies #[trigger] ranked[a]
            != #[trigger] ranked[b] by {
            assert(ranked.no_duplicates());
        }
    }
    lemma_listed_distinct(ranked, info, filter, show_threads);
    let desc = listed_in_order(ranked, info, filter, show_threads);
    let asc = desc.reverse();
    assert(distinct_pids(asc)) by {
        assert forall|a: int, b: int|
            0 <= a < asc.len() && 0 <= b < asc.len() && a != b implies #[trigger] asc[a] != #[trigger] asc[b] by {
            assert(asc[a] == desc[desc.len() - 1 - a]);
            assert(asc[b] == desc[desc.len() - 1 - b]);
        }
    }
    assert forall|d: SortDirection| distinct_pids(#[trigger] listing(ranked, info, filter, show_threads, d)) by {
        match d {
            SortDirection::Ascending => {},
            SortDirection::Descending => {},
        }
    }
    assert forall|d: SortDirection, q: u32|
        #[trigger] listing(ranked, info, filter, show_threads, d).contains(q) <==> (info.dom().contains(q)
            && is_listed(info[q], filter, show_threads)) by {
        lemma_listed_membership(ranked, info, filter, show_threads, q);
        assert(ranked.contains(q) <==> ranked.to_multiset().count(q) > 0);
        assert(all.contains(q) <==> all.to_multiset().count(q) > 0);
        assert(all.to_set().contains(q) <==> all.contains(q));
        assert(asc.contains(q) <==> desc.contains(q)) by {
            if asc.contains(q) {
                let i = choose|i: int| 0 <= i < asc.len() && asc[i] == q;
                assert(desc[desc.len() - 1 - i] == q);
            }
            if desc.contains(q) {
                let i = choose|i: int| 0 <= i < desc.len() && desc[i] == q;
                assert(asc[desc.len() - 1 - i] == q);
            }
        }
    }
}

/// Whether the process's name or one of its arguments contains `filter`.
fn detail_matches(detail: &ProcessDetail, filter: &str) -> (r: bool)
    ensures
        r == matches_filter(*detail, filter@),
{
    if text_contains(detail.name.as_str(), filter) {
        return true;
    }
    let mut a: usize = 0;
    while a < detail.cmd.len()
        invariant
            a <= detail.cmd@.len(),
            forall|q: int|
                0 <= q < a ==> !has_substring(
                    vstd::utf8::encode_utf8(#[trigger] detail.cmd@[q]@),
                    vstd::utf8::encode_utf8(filter@),
                ),
        decreases detail.cmd@.len() - a,
    {
        if text_contains(detail.cmd[a].as_str(), filter) {
            return true;
        }
        a = a + 1;
    }
    false
}

/// The process identifiers the list shows, in display order. `ranked` holds
/// every process in the order that the chosen sort key gives; the list keeps
/// those it shows and, when sorted ascending, reverses them.
pub fn listed_pids(
    ranked: &Vec<u32>,
    process_info: &HashMap<u32, ProcessInfo>,
    filter: &str,
    show_threads: bool,
    direction: SortDirection,
) -> (r: Vec<u32>)
    requires
        forall|i: int| 0 <= i < ranked@.len() ==> process_info@.contains_key(#[trigger] ranked@[i]),
    ensures
        r@ == listing(ranked@, process_info@, filter@, show_threads, direction),
        distinct_pids(ranked@) ==> distinct_pids(r@),
{
    let mut kept: Vec<u32> = Vec::new();
    let mut i: usize = 0;
    while i < ranked.len()
        invariant
            i <= ranked@.len(),
            forall|q: int| 0 <= q < ranked@.len() ==> process_info@.contains_key(#[trigger] ranked@[q]),
            kept@ == listed_in_order(ranked@.take(i as int), process_info@, filter@, show_threads),
            forall|k: int|
                0 <= k < kept@.len() ==> exists|q: int| 0 <= q < i && ranked@[q] == #[trigger] kept@[k],
            distinct_pids(ranked@) ==> distinct_pids(kept@),
        decreases ranked@.len() - i,
    {
        let pid = ranked[i];
        assert(ranked@.take(i as int + 1).drop_last() == ranked@.take(i as int));
        assert(ranked@.take(i as int + 1).last() == pid);
        let listed = match process_info.get(&pid) {
            Some(info) => {
                (info.detail.thread_kind.is_none() || show_threads) && detail_matches(&info.detail, filter)
            },
            None => false,
        };
        if listed {
            proof {
                if distinct_pids(ranked@) {
                    assert forall|a: int, b: int|
                        0 <= a < kept@.len() + 1 && 0 <= b < kept@.len() + 1 && a != b implies #[trigger] kept@.push(pid)[a]
                        != #[trigger] kept@.push(pid)[b] by {
                        if a == kept@.len() {
                            let q = choose|q: int| 0 <= q < i && ranked@[q] == kept@[b];
                            assert(ranked@[q] != ranked@[i as int]);
                        } else if b == kept@.len() {
                            let q = choose|q: int| 0 <= q < i && ranked@[q] == kept@[a];
                            assert(ranked@[q] != ranked@[i as int]);
                        }
                    }
                }
            }
            kept.push(pid);
        }
        i = i + 1;
    }
    assert(ranked@.take(ranked@.len() as int) == ranked@);
    match direction {
        SortDirection::Descending => kept,
        SortDirection::Ascending => {
            let mut reversed: Vec<u32> = Vec::new();
            let mut j: usize = kept.len();
            while j > 0
                invariant
                    j <= kept@.len(),
                    reversed@ == kept@.subrange(j as int, kept@.len() as int).reverse(),
                decreases j,
            {
                j = j - 1;
                assert(kept@.subrange(j as int, kept@.len() as int).reverse() == kept@.subrange(
                    j as int + 1,
                    kept@.len() as int,
                ).reverse().push(kept@[j as int]));
                reversed.push(kept[j]);
            }
            assert(kept@.subrange(0, kept@.len() as int) == kept@);
            proof {
                if distinct_pids(ranked@) {
                    assert forall|a: int, b: int|
                        0 <= a < reversed@.len() && 0 <= b < reversed@.len() && a != b implies #[trigger] reversed@[a]
                        != #[trigger] reversed@[b] by {
                        assert(reversed@[a] == kept@[kept@.len() - 1 - a]);
                        assert(reversed@[b] == kept@[kept@.len() - 1 - b]);
                    }
                }
            }
            reversed
        },
    }
}

/// The processes of a pinned list that are still running, in pinned order.
pub fn still_running(pinned: &Vec<u32>, process_info: &HashMap<u32, ProcessInfo>) -> (r: Vec<u32>)
    ensures
        r@ == pinned@.filter(|pid: u32| process_info@.contains_key(pid)),
{
    let mut kept: Vec<u32> = Vec::new();
    let mut i: usize = 0;
    while i < pinned.len()
        invariant
            i <= pinned@.len(),
            kept@ == pinned@.take(i as int).filter(|pid: u32| process_info@.contains_key(pid)),
        decreases pinned@.len() - i,
    {
        assert(pinned@.take(i as int + 1).drop_last() == pinned@.take(i as int));
        reveal(Seq::filter);
        if process_info.contains_key(&pinned[i]) {
            kept.push(pinned[i]);
        }
        i = i + 1;
    }
    assert(pinned@.take(pinned@.len() as int) == pinned@);
    kept
}

/// The parent of each listed process, as the process data records it.
pub open spec fn parents_of(ordered: Seq<u32>, info: Map<u32, ProcessInfo>) -> Seq<Option<u32>> {
    ordered.map_values(|pid: u32| info[pid].detail.parent)
}

/// The tree view's rows for the processes `ordered` (in the order of the
/// chosen sort key), nested by the parents that `process_info` records.
pub fn tree_rows(ordered: &Vec<u32>, process_info: &HashMap<u32, ProcessInfo>) -> (rows: Vec<TreeRow>)
    requires
        distinct_pids(ordered@),
        forall|i: int| 0 <= i < ordered@.len() ==> process_info@.contains_key(#[trigger] ordered@[i]),
    ensures
        tree_layout(ordered@, parents_of(ordered@, process_info@), rows@),
{
    let mut parents: Vec<Option<u32>> = Vec::new();
    let mut i: usize = 0;
    while i < ordered.len()
        invariant
            i <= ordered@.len(),
            forall|q: int| 0 <= q < ordered@.len() ==> process_info@.contains_key(#[trigger] ordered@[q]),
            parents@ == parents_of(ordered@, process_info@).take(i as int),
        decreases ordered@.len() - i,
    {
        let parent = match process_info.get(&ordered[i]) {
            Some(info) => info.detail.parent,
            None => None,
        };
        proof {
            assert(parents_of(ordered@, process_info@).take(i as int + 1) == parents_of(
                ordered@,
                process_info@,
            ).take(i as int).push(parent));
        }
        parents.push(parent);
        i = i + 1;
    }
    assert(parents_of(ordered@, process_info@).take(ordered@.len() as int) == parents_of(
        ordered@,
        process_info@,
    ));
    tree_order(ordered, &parents)
}

/// The identifiers that `info` holds processes for.
pub fn process_pid_set(info: &HashMap<u32, ProcessInfo>) -> (r: HashSet<u32>)
    ensures
        r@ == info@.dom(),
{
    let mut out: HashSet<u32> = HashSet::new();
    let ghost all = info.keys().remaining();
    for pid in it: info.keys()
        invariant
            it.seq() == all,
            all.unref().to_set() == info@.dom(),
            out@ == all.take(it.index() as int).unref().to_set(),
    {
        let ghost i = it.index();
        out.insert(*pid);
        proof {
            assert(all.take(i + 1).unref() =~= all.take(i as int).unref().push(*pid));
            lemma_push_to_set(all.take(i as int).unref(), *pid);
        }
    }
    assert(all.take(all.len() as int) == all);
    out
}

/// Whether the process list follows the latest reading, keeps a pinned list
/// of processes whose figures still update, or holds a paused copy of them.
pub enum FreezeState {
    Live,
    Pin(Vec<u32>),
    Pause(HashMap<u32, ProcessInfo>),
}

impl FreezeState {
    /// Before the list is drawn: while it is live, selected processes that are
    /// gone from `existing` are forgotten; pinned or paused, the selection
    /// stays as it is.
    pub fn prune_selection(&self, selection: &mut ProcessSelection, existing: &HashSet<u32>)
        ensures
            final(selection).multiple_selection == old(selection).multiple_selection,
            final(selection).selected_processes@ == if self is Live {
                old(selection).selected_processes@.intersect(existing@)
            } else {
                old(selection).selected_processes@
            },
    {
        if let FreezeState::Live = self {
            selection.retain_existing_pids(existing);
        }
    }

    /// A click on the row of `pid`: it changes the selection as
    /// [`ProcessSelection::select_process`] does, but only while the list is
    /// live.
    pub fn click(&self, selection: &mut ProcessSelection, pid: u32)
        ensures
            final(selection).multiple_selection == old(selection).multiple_selection,
            final(selection).selected_processes@ == if self is Live {
                after_click(old(selection).selected_processes@, old(selection).multiple_selection, pid)
            } else {
                old(selection).selected_processes@
            },
    {
        if let FreezeState::Live = self {
            selection.select_process(pid);
        }
    }

    /// The processes the table marks as selected: the selection, except while
    /// paused, when every process of the paused copy is marked.
    pub fn marked(&self, selection: &ProcessSelection) -> (r: HashSet<u32>)
        ensures
            r@ == match self {
                FreezeState::Pause(held) => held@.dom(),
                _ => selection.selected_processes@,
            },
    {
        match self {
            FreezeState::Pause(held) => process_pid_set(held),
            _ => crate::gui::backend::copy_set(&selection.selected_processes),
        }
    }
}

} // verus!
