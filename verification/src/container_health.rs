//! Resource contention and limits of one container.
//!
//! A container has no load average, and two signals that a machine has no analogue
//! for: quota throttling and kills for want of memory. It also has limits, which
//! is the point. A limit is reported by presence: none means that none is set.
use vstd::prelude::*;

use crate::cgroup::{
    are_counters, counters_text, cpu_max, cpu_max_of, keyed, keyed_of, law_a_single_number,
    law_counters_read_back, law_cpu_max_reads_back, law_max_is_no_number, law_no_quota_no_limit,
    law_single_reads_back, limit, limit_of, single, single_of, Found, FoundView,
};
use crate::clock::{
    collected_at_of, law_an_instant_is_dated, law_one_clock, target_now_of, timestamp_of,
    wall_clock_from, Civil,
};
use crate::container_list::listing_of;
use crate::discovery::{founds, texts};
use crate::fault::{Fault, FaultView};
use crate::number::{decimal, is_float, u64_of};
use crate::pressure::{
    law_pressure_reads_back, option_view, pressure_of, read_pressure, read_pressure_of, stall_line,
    Pressure, PressureView,
};
use crate::proc::{parse_error, required, result_view, text_view};
use crate::system_health::{as_text, optional, percent_of, share_of, PressureTexts, Share};
use crate::text::{same, trim_of};

verus! {

broadcast use vstd::string::group_string_axioms;

/// CPU use and the quota, if any, that bounds it.
#[derive(Clone, Copy, Debug, PartialEq, Eq, Structural)]
pub struct CpuHealth {
    /// Cumulative CPU microseconds consumed since the container started.
    pub usage_usec: u64,
    pub user_usec: u64,
    pub system_usec: u64,
    /// The quota in microseconds. Absent when no limit is set.
    pub quota_usec: Option<u64>,
    /// The period that the quota is for, in microseconds. Absent when no limit is
    /// set.
    pub period_usec: Option<u64>,
    /// Relative share of CPU when the machine is contended.
    pub weight: Option<u64>,
    /// Enforcement periods elapsed.
    pub nr_periods: u64,
    /// Periods in which the container was throttled for exhausting its quota.
    pub nr_throttled: u64,
    /// Cumulative microseconds spent throttled.
    pub throttled_usec: u64,
}

/// Memory use, the limits around it, and what those limits have done.
#[derive(Clone, Copy, Debug, PartialEq, Eq, Structural)]
pub struct MemoryHealth {
    /// Memory currently charged to the container, page cache counted.
    pub current_bytes: u64,
    /// Hard limit. Absent when no limit is set.
    pub limit_bytes: Option<u64>,
    /// `current_bytes` of `limit_bytes`. Absent when no limit is set.
    pub limit_used_percent: Option<Share>,
    /// Throttling threshold. Absent when unset.
    pub high_bytes: Option<u64>,
    pub swap_current_bytes: Option<u64>,
    /// Times allocation was blocked at the hard limit.
    pub limit_hits: u64,
    /// Times the container was throttled at `high_bytes`.
    pub high_hits: u64,
    /// Times a process here was killed for exceeding the limit.
    pub oom_kills: u64,
    /// Times the container ran out of memory, which may resolve without a kill.
    pub oom_events: u64,
}

/// Process count against the process limit.
#[derive(Clone, Copy, Debug, PartialEq, Eq, Structural)]
pub struct PidsHealth {
    pub current: u64,
    /// Maximum processes. Absent when explicitly unlimited.
    pub limit: Option<u64>,
}

/// Pressure-stall information for the three contended resources of a container.
///
/// Unlike for a whole machine, `full` is meaningful for the CPU here: a container
/// can be wholly starved while the machine is busy and healthy.
pub struct PressureSet {
    pub cpu: Option<Pressure>,
    pub memory: Option<Pressure>,
    pub io: Option<Pressure>,
}

/// Pressure-stall information with its averages taken as characters.
pub struct PressureSetView {
    pub cpu: Option<PressureView>,
    pub memory: Option<PressureView>,
    pub io: Option<PressureView>,
}

impl View for PressureSet {
    type V = PressureSetView;

    open spec fn view(&self) -> PressureSetView {
        PressureSetView {
            cpu: option_view(self.cpu),
            memory: option_view(self.memory),
            io: option_view(self.io),
        }
    }
}

/// Resource contention and configured limits of one container.
pub struct ContainerHealth {
    /// Echoes the requested target.
    pub target: String,
    /// Echoes the requested container ID.
    pub container: String,
    /// Which runtime created the container.
    pub runtime: &'static str,
    /// Wall-clock time of this reading by the target's own clock.
    pub collected_at: String,
    /// Seconds the container has been running. Absent if the time its cgroup was
    /// created could not be read.
    pub uptime_seconds: Option<i64>,
    /// Distinct names of the processes running in the container.
    pub processes: Vec<String>,
    /// Processes in the container.
    pub process_count: usize,
    /// Absent when the cpu controller is not delegated to this cgroup.
    pub cpu: Option<CpuHealth>,
    /// Absent when the memory controller is not delegated to this cgroup.
    pub memory: Option<MemoryHealth>,
    /// Absent when the pids controller is not delegated to this cgroup.
    pub pids: Option<PidsHealth>,
    /// Absent when the kernel supplies no pressure-stall information for this
    /// cgroup.
    pub pressure: Option<PressureSet>,
}

/// Health with its strings taken as characters.
pub struct ContainerHealthView {
    pub target: Seq<char>,
    pub container: Seq<char>,
    pub runtime: Seq<char>,
    pub collected_at: Seq<char>,
    pub uptime_seconds: Option<i64>,
    pub processes: Seq<Seq<char>>,
    pub process_count: usize,
    pub cpu: Option<CpuHealth>,
    pub memory: Option<MemoryHealth>,
    pub pids: Option<PidsHealth>,
    pub pressure: Option<PressureSetView>,
}

impl View for ContainerHealth {
    type V = ContainerHealthView;

    open spec fn view(&self) -> ContainerHealthView {
        ContainerHealthView {
            target: self.target@,
            container: self.container@,
            runtime: self.runtime@,
            collected_at: self.collected_at@,
            uptime_seconds: self.uptime_seconds,
            processes: texts(self.processes@),
            process_count: self.process_count,
            cpu: self.cpu,
            memory: self.memory,
            pids: self.pids,
            pressure: option_view(self.pressure),
        }
    }
}

/// The texts of the files of a container's cgroup, where they could be read.
pub struct CgroupTexts {
    pub cpu_stat: Option<String>,
    pub cpu_max: Option<String>,
    pub cpu_weight: Option<String>,
    pub memory_current: Option<String>,
    pub memory_max: Option<String>,
    pub memory_high: Option<String>,
    pub memory_swap_current: Option<String>,
    pub memory_events: Option<String>,
    pub pids_current: Option<String>,
    pub pids_max: Option<String>,
    pub pressure: PressureTexts,
}

/// A counter that is zero where its line is missing.
pub open spec fn counter(text: Seq<char>, key: Seq<char>) -> u64 {
    match keyed_of(text, key) {
        Some(n) => n,
        None => 0,
    }
}

/// The number in a file that may be missing.
pub open spec fn single_in(text: Option<Seq<char>>) -> Option<u64> {
    match text {
        Some(t) => single_of(t),
        None => None,
    }
}

/// The limit in a file that may be missing.
pub open spec fn limit_in(text: Option<Seq<char>>) -> Option<u64> {
    match text {
        Some(t) => limit_of(t),
        None => None,
    }
}

/// The quota and period in a file that may be missing.
pub open spec fn quota_in(text: Option<Seq<char>>) -> Option<(u64, u64)> {
    match text {
        Some(t) => cpu_max_of(t),
        None => None,
    }
}

/// The CPU block: there only where `cpu.stat` is and says how much was used.
pub open spec fn cpu_health_of(
    stat: Option<Seq<char>>,
    max: Option<Seq<char>>,
    weight: Option<Seq<char>>,
) -> Option<CpuHealth> {
    match stat {
        None => None,
        Some(text) => match keyed_of(text, "usage_usec"@) {
            None => None,
            Some(usage) => Some(
                CpuHealth {
                    usage_usec: usage,
                    user_usec: counter(text, "user_usec"@),
                    system_usec: counter(text, "system_usec"@),
                    quota_usec: match quota_in(max) {
                        Some((quota, _)) => Some(quota),
                        None => None,
                    },
                    period_usec: match quota_in(max) {
                        Some((_, period)) => Some(period),
                        None => None,
                    },
                    weight: single_in(weight),
                    nr_periods: counter(text, "nr_periods"@),
                    nr_throttled: counter(text, "nr_throttled"@),
                    throttled_usec: counter(text, "throttled_usec"@),
                },
            ),
        },
    }
}

/// The memory block: there only where `memory.current` is and holds a number. The
/// counters are zero where `memory.events` is missing.
pub open spec fn memory_health_of(
    current: Option<Seq<char>>,
    max: Option<Seq<char>>,
    high: Option<Seq<char>>,
    swap: Option<Seq<char>>,
    events: Option<Seq<char>>,
) -> Option<MemoryHealth> {
    let log = match events {
        Some(text) => text,
        None => Seq::empty(),
    };
    match single_in(current) {
        None => None,
        Some(bytes) => Some(
            MemoryHealth {
                current_bytes: bytes,
                limit_bytes: limit_in(max),
                limit_used_percent: match limit_in(max) {
                    Some(l) => share_of(bytes, l),
                    None => None,
                },
                high_bytes: limit_in(high),
                swap_current_bytes: single_in(swap),
                limit_hits: counter(log, "max"@),
                high_hits: counter(log, "high"@),
                oom_kills: counter(log, "oom_kill"@),
                oom_events: counter(log, "oom"@),
            },
        ),
    }
}

/// The process block: there only where `pids.current` is and holds a number.
pub open spec fn pids_health_of(
    current: Option<Seq<char>>,
    max: Option<Seq<char>>,
) -> Option<PidsHealth> {
    match single_in(current) {
        None => None,
        Some(n) => Some(PidsHealth { current: n, limit: limit_in(max) }),
    }
}

/// The pressure block: each resource by its own file alone, and no block where
/// none of the three is there.
pub open spec fn pressure_set_of(
    cpu: Option<Seq<char>>,
    memory: Option<Seq<char>>,
    io: Option<Seq<char>>,
) -> Option<PressureSetView> {
    let set = PressureSetView {
        cpu: read_pressure_of(cpu),
        memory: read_pressure_of(memory),
        io: read_pressure_of(io),
    };
    if set.cpu is None && set.memory is None && set.io is None {
        None
    } else {
        Some(set)
    }
}

/// A counter that is zero where its line is missing.
fn count(text: &str, key: &str) -> (r: u64)
    ensures
        r == counter(text@, key@),
{
    match keyed(text, key) {
        Some(n) => n,
        None => 0,
    }
}

/// The number in a file that may be missing.
fn read_single(text: Option<&str>) -> (r: Option<u64>)
    ensures
        r == single_in(text_view(text)),
{
    match text {
        Some(t) => single(t),
        None => None,
    }
}

/// The limit in a file that may be missing.
fn read_limit(text: Option<&str>) -> (r: Option<u64>)
    ensures
        r == limit_in(text_view(text)),
{
    match text {
        Some(t) => limit(t),
        None => None,
    }
}

/// CPU use, given the texts of `cpu.stat`, `cpu.max` and `cpu.weight`.
pub fn cpu_health(stat: Option<&str>, max: Option<&str>, weight: Option<&str>) -> (r: Option<
    CpuHealth,
>)
    ensures
        r == cpu_health_of(text_view(stat), text_view(max), text_view(weight)),
{
    let text = match stat {
        Some(text) => text,
        None => {
            return None;
        },
    };
    let usage_usec: u64 = match keyed(text, "usage_usec") {
        Some(n) => n,
        None => {
            return None;
        },
    };
    let quota = match max {
        Some(t) => cpu_max(t),
        None => None,
    };
    let (quota_usec, period_usec) = match quota {
        Some((q, p)) => (Some(q), Some(p)),
        None => (None, None),
    };
    Some(
        CpuHealth {
            usage_usec,
            user_usec: count(text, "user_usec"),
            system_usec: count(text, "system_usec"),
            quota_usec,
            period_usec,
            weight: read_single(weight),
            nr_periods: count(text, "nr_periods"),
            nr_throttled: count(text, "nr_throttled"),
            throttled_usec: count(text, "throttled_usec"),
        },
    )
}

/// Memory use, given the texts of `memory.current`, `memory.max`, `memory.high`,
/// `memory.swap.current` and `memory.events`.
pub fn memory_health(
    current: Option<&str>,
    max: Option<&str>,
    high: Option<&str>,
    swap: Option<&str>,
    events: Option<&str>,
) -> (r: Option<MemoryHealth>)
    ensures
        r == memory_health_of(
            text_view(current),
            text_view(max),
            text_view(high),
            text_view(swap),
            text_view(events),
        ),
{
    let current_bytes: u64 = match read_single(current) {
        Some(n) => n,
        None => {
            return None;
        },
    };
    let limit_bytes = read_limit(max);
    let log = match events {
        Some(text) => text,
        None => "",
    };
    proof {
        reveal_strlit("");
        assert(""@ =~= Seq::empty());
    }
    Some(
        MemoryHealth {
            current_bytes,
            limit_bytes,
            limit_used_percent: match limit_bytes {
                Some(l) => percent_of(current_bytes, l),
                None => None,
            },
            high_bytes: read_limit(high),
            swap_current_bytes: read_single(swap),
            limit_hits: count(log, "max"),
            high_hits: count(log, "high"),
            oom_kills: count(log, "oom_kill"),
            oom_events: count(log, "oom"),
        },
    )
}

/// Process count, given the texts of `pids.current` and `pids.max`.
pub fn pids_health(current: Option<&str>, max: Option<&str>) -> (r: Option<PidsHealth>)
    ensures
        r == pids_health_of(text_view(current), text_view(max)),
{
    match read_single(current) {
        Some(n) => Some(PidsHealth { current: n, limit: read_limit(max) }),
        None => None,
    }
}

/// Assemble the pressure block, or nothing if the cgroup offers no pressure-stall
/// information at all.
pub fn pressure_set(texts: &PressureTexts) -> (r: Option<PressureSet>)
    ensures
        option_view(r) == pressure_set_of(
            optional(texts.cpu),
            optional(texts.memory),
            optional(texts.io),
        ),
{
    let cpu = read_pressure(as_text(&texts.cpu));
    let memory = read_pressure(as_text(&texts.memory));
    let io = read_pressure(as_text(&texts.io));
    if cpu.is_none() && memory.is_none() && io.is_none() {
        return None;
    }
    Some(PressureSet { cpu, memory, io })
}

/// The first of `found` with the ID `container`.
pub open spec fn select_of(found: Seq<FoundView>, container: Seq<char>) -> Option<FoundView>
    decreases found.len(),
{
    if found.len() == 0 {
        None
    } else if found[0].id == container {
        Some(found[0])
    } else {
        select_of(found.drop_first(), container)
    }
}

/// The container with the ID `container` among those found on `target`.
pub fn select(found: Vec<Found>, target: &str, container: &str) -> (r: Result<Found, Fault>)
    ensures
        result_view(r) == match select_of(founds(found@), container@) {
            Some(f) => Ok(f),
            None => Err(
                FaultView::UnknownContainer { target: target@, container: container@ },
            ),
        },
{
    let ghost all = founds(found@);
    assert(all.skip(0) =~= all);
    for f in it: found
        invariant
            all == founds(it.seq()),
            select_of(all.skip(it.index()), container@) == select_of(all, container@),
    {
        proof {
            let n = it.index();
            assert(all.skip(n)[0] == f@);
            assert(all.skip(n).drop_first() =~= all.skip(n + 1));
        }
        if same(f.id.as_str(), container) {
            return Ok(f);
        }
    }
    Err(
        Fault::UnknownContainer { target: target.to_owned(), container: container.to_owned() },
    )
}

/// How long ago `created` was at `now`, and nothing below zero.
pub open spec fn age_of(now: i64, created: i64) -> int {
    if now >= created {
        now - created
    } else {
        0
    }
}

/// How long a container has been running, given when its cgroup was created.
pub fn uptime_seconds(now: i64, created: i64) -> (r: i64)
    requires
        i64::MIN <= now - created <= i64::MAX,
    ensures
        r == age_of(now, created),
{
    if now >= created {
        now - created
    } else {
        0
    }
}

/// The health of one container, given what its files said.
pub open spec fn container_health_of(
    target: Seq<char>,
    found: FoundView,
    now: i64,
    created: Option<i64>,
    processes: Seq<Seq<char>>,
    process_count: usize,
    texts: CgroupTexts,
) -> Result<ContainerHealthView, FaultView> {
    match required(timestamp_of(now as int), "/proc/stat"@, "boot time out of range"@) {
        Err(fault) => Err(fault),
        Ok(at) => Ok(
            ContainerHealthView {
                target,
                container: found.id,
                runtime: found.runtime,
                collected_at: at,
                uptime_seconds: match created {
                    Some(start) => Some(age_of(now, start) as i64),
                    None => None,
                },
                processes,
                process_count,
                cpu: cpu_health_of(
                    optional(texts.cpu_stat),
                    optional(texts.cpu_max),
                    optional(texts.cpu_weight),
                ),
                memory: memory_health_of(
                    optional(texts.memory_current),
                    optional(texts.memory_max),
                    optional(texts.memory_high),
                    optional(texts.memory_swap_current),
                    optional(texts.memory_events),
                ),
                pids: pids_health_of(optional(texts.pids_current), optional(texts.pids_max)),
                pressure: pressure_set_of(
                    optional(texts.pressure.cpu),
                    optional(texts.pressure.memory),
                    optional(texts.pressure.io),
                ),
            },
        ),
    }
}

/// Collect health of the container `found`, given the instant that the target's
/// clock shows, when the container's cgroup was created, its identity and the
/// texts of its files.
pub fn collect(
    target: String,
    found: Found,
    now: i64,
    created: Option<i64>,
    identity: (Vec<String>, usize),
    files: &CgroupTexts,
) -> (r: Result<ContainerHealth, Fault>)
    requires
        created matches Some(start) ==> i64::MIN <= now - start <= i64::MAX,
    ensures
        result_view(r) == container_health_of(
            target@,
            found@,
            now,
            created,
            texts(identity.0@),
            identity.1,
            *files,
        ),
{
    let at = match wall_clock_from(now) {
        Some(text) => text,
        None => {
            return Err(parse_error("/proc/stat", "boot time out of range"));
        },
    };
    let age = match created {
        Some(start) => Some(uptime_seconds(now, start)),
        None => None,
    };
    let (processes, process_count) = identity;
    Ok(
        ContainerHealth {
            target,
            container: found.id,
            runtime: found.runtime,
            collected_at: at,
            uptime_seconds: age,
            processes,
            process_count,
            cpu: cpu_health(
                as_text(&files.cpu_stat),
                as_text(&files.cpu_max),
                as_text(&files.cpu_weight),
            ),
            memory: memory_health(
                as_text(&files.memory_current),
                as_text(&files.memory_max),
                as_text(&files.memory_high),
                as_text(&files.memory_swap_current),
                as_text(&files.memory_events),
            ),
            pids: pids_health(as_text(&files.pids_current), as_text(&files.pids_max)),
            pressure: pressure_set(&files.pressure),
        },
    )
}

/// A container is answered for under the ID that was asked for, and is unknown
/// exactly where no container found has that ID.
pub proof fn law_select_goes_by_id(found: Seq<FoundView>, container: Seq<char>)
    ensures
        match select_of(found, container) {
            Some(f) => found.contains(f) && f.id == container,
            None => forall|i: int| 0 <= i < found.len() ==> (#[trigger] found[i]).id != container,
        },
    decreases found.len(),
{
    if found.len() > 0 {
        let rest = found.drop_first();
        law_select_goes_by_id(rest, container);
        if found[0].id == container {
            assert(found.contains(found[0]));
        } else {
            match select_of(rest, container) {
                Some(f) => {
                    let i = choose|i: int| 0 <= i < rest.len() && rest[i] == f;
                    assert(found[i + 1] == f);
                },
                None => {
                    assert forall|i: int| 0 <= i < found.len() implies (#[trigger] found[i]).id
                        != container by {
                        if i > 0 {
                            assert(found[i] == rest[i - 1]);
                        }
                    }
                },
            }
        }
    }
}

/// Where the limit files say `max`, or are missing, no limit is reported, and no
/// percentage of one; the rest of the block is there all the same.
pub proof fn law_limits_are_reported_by_presence(
    current: Option<Seq<char>>,
    max: Option<Seq<char>>,
    high: Option<Seq<char>>,
    swap: Option<Seq<char>>,
    events: Option<Seq<char>>,
)
    ensures
        memory_health_of(current, max, high, swap, events) is Some <==> single_in(current) is Some,
        memory_health_of(current, max, high, swap, events) matches Some(m) ==> {
            &&& m.limit_bytes == limit_in(max)
            &&& max is None ==> m.limit_bytes is None
            &&& (max matches Some(t) && trim_of(t) == "max"@) ==> m.limit_bytes is None
            &&& m.limit_used_percent is Some <==> (m.limit_bytes matches Some(l) && l > 0)
            &&& m.limit_used_percent matches Some(share) ==> share.part == m.current_bytes
                && m.limit_bytes == Some(share.whole)
        },
{
}

/// A quota and its period come together or not at all.
pub proof fn law_a_quota_comes_with_its_period(
    stat: Option<Seq<char>>,
    max: Option<Seq<char>>,
    weight: Option<Seq<char>>,
)
    ensures
        cpu_health_of(stat, max, weight) matches Some(cpu) ==> {
            &&& cpu.quota_usec is Some <==> cpu.period_usec is Some
            &&& cpu.quota_usec is Some <==> quota_in(max) is Some
        },
{
}

/// The age of a container is never negative, and is counted on the clock that
/// dates the reading.
pub proof fn law_age_is_never_negative(
    target: Seq<char>,
    found: FoundView,
    now: i64,
    created: Option<i64>,
    processes: Seq<Seq<char>>,
    process_count: usize,
    files: CgroupTexts,
)
    requires
        created matches Some(start) ==> i64::MIN <= now - start <= i64::MAX,
    ensures
        container_health_of(target, found, now, created, processes, process_count, files) matches Ok(
            h,
        ) ==> {
            &&& h.uptime_seconds is Some <==> created is Some
            &&& h.uptime_seconds matches Some(age) ==> age >= 0 && (now >= created->0 ==> age
                == now - created->0)
            &&& timestamp_of(now as int) == Some(h.collected_at)
        },
{
}

/// The containers of a listing, without the names of their processes.
pub open spec fn found_in(listed: Seq<(Found, Vec<String>)>) -> Seq<FoundView> {
    Seq::new(listed.len(), |i: int| listed[i].0@)
}

/// Where an ID is that of one container only, that container is the one selected
/// by it, and its health is answered under the same ID, runtime and process names,
/// provided the instant has a timestamp.
pub proof fn law_a_unique_id_is_answered_for(
    found: Seq<FoundView>,
    i: int,
    target: Seq<char>,
    now: i64,
    created: Option<i64>,
    processes: Seq<Seq<char>>,
    process_count: usize,
    files: CgroupTexts,
)
    requires
        0 <= i < found.len(),
        forall|j: int| 0 <= j < found.len() && j != i ==> (#[trigger] found[j]).id != found[i].id,
    ensures
        select_of(found, found[i].id) == Some(found[i]),
        timestamp_of(now as int) is Some ==> (container_health_of(
            target,
            found[i],
            now,
            created,
            processes,
            process_count,
            files,
        ) matches Ok(h) && h.container == found[i].id && h.runtime == found[i].runtime
            && h.processes == processes),
{
    law_select_goes_by_id(found, found[i].id);
    match select_of(found, found[i].id) {
        Some(f) => {
            let j = choose|j: int| 0 <= j < found.len() && found[j] == f;
            assert(found[j].id == found[i].id);
        },
        None => {},
    }
}

/// Each ID that a listing gives, and gives once, is one that the health of a
/// container is answered for: over the same state of the machine, dated as the
/// listing is, with the runtime and the process names that the listing gave.
pub proof fn law_listed_containers_are_answered_for(
    listed: Seq<(Found, Vec<String>)>,
    i: int,
    target: Seq<char>,
    stat: Seq<char>,
    uptime: i64,
    created: Option<i64>,
    process_count: usize,
    files: CgroupTexts,
)
    requires
        0 <= i < listed.len(),
        forall|j: int|
            0 <= j < listed.len() && j != i ==> (#[trigger] listing_of(listed)[j]).id != listing_of(
                listed,
            )[i].id,
        collected_at_of(stat, uptime) is Ok,
    ensures
        ({
            let c = listing_of(listed)[i];
            let found = found_in(listed);
            &&& select_of(found, c.id) == Some(found[i])
            &&& target_now_of(stat, uptime) matches Ok(now) && (container_health_of(
                target,
                found[i],
                now,
                created,
                c.processes,
                process_count,
                files,
            ) matches Ok(h) && h.container == c.id && h.runtime == c.runtime && h.processes
                == c.processes && collected_at_of(stat, uptime) == Ok::<_, FaultView>(
                h.collected_at,
            ))
        }),
{
    let c = listing_of(listed)[i];
    let found = found_in(listed);
    assert forall|j: int| 0 <= j < found.len() && j != i implies (#[trigger] found[j]).id
        != found[i].id by {
        assert(listing_of(listed)[j].id == found[j].id);
    }
    law_one_clock(stat, uptime);
    let now = target_now_of(stat, uptime)->Ok_0;
    law_a_unique_id_is_answered_for(
        found,
        i,
        target,
        now,
        created,
        c.processes,
        process_count,
        files,
    );
}

/// Whether `n` is the counter under `key`: the number written there, and zero where
/// the key was not written.
pub open spec fn counts(counters: Seq<(Seq<char>, u64)>, key: Seq<char>, n: u64) -> bool {
    &&& forall|i: int|
        0 <= i < counters.len() && (#[trigger] counters[i]).0 == key ==> n == counters[i].1
    &&& (forall|i: int| 0 <= i < counters.len() ==> (#[trigger] counters[i]).0 != key) ==> n == 0
}

/// Whether the file is there and holds this text.
pub open spec fn holds(file: Option<String>, text: Seq<char>) -> bool {
    file matches Some(t) && t@ == text
}

/// A counter of a file that the kernel wrote is the number under its key.
proof fn lemma_counter(counters: Seq<(Seq<char>, u64)>, key: Seq<char>)
    requires
        are_counters(counters),
        key.len() > 0,
        !key.contains(' '),
    ensures
        counts(counters, key, counter(counters_text(counters), key)),
{
    law_counters_read_back(counters, key);
}

/// Without a file there are no counters.
proof fn lemma_no_counter(key: Seq<char>)
    requires
        key.len() > 0,
        !key.contains(' '),
    ensures
        counter(Seq::empty(), key) == 0,
{
    let none = Seq::<(Seq<char>, u64)>::empty();
    law_counters_read_back(none, key);
    assert(counters_text(none) =~= Seq::empty());
}

/// A container is answered for under its own ID and runtime, on the target that was
/// asked, with the processes that were counted and named in it. The reading is dated
/// by the instant that the clock shows, and the age is how long before that instant
/// the cgroup was created, or zero where it was not before it.
pub proof fn law_a_container_is_answered_under_its_identity(
    target: Seq<char>,
    found: FoundView,
    now: i64,
    created: Option<i64>,
    processes: Seq<Seq<char>>,
    process_count: usize,
    files: CgroupTexts,
    c: Civil,
)
    requires
        created matches Some(start) ==> i64::MIN <= now - start <= i64::MAX,
        c.valid(),
        c.epoch_seconds() == now,
    ensures
        ({
            let answer = container_health_of(
                target,
                found,
                now,
                created,
                processes,
                process_count,
                files,
            );
            &&& -262143 <= c.year <= 262142 ==> (answer matches Ok(h) && {
                &&& h.target == target
                &&& h.container == found.id
                &&& h.runtime == found.runtime
                &&& h.collected_at == c.rfc3339()
                &&& h.processes == processes
                &&& h.process_count == process_count
                &&& created is None ==> h.uptime_seconds is None
                &&& created matches Some(start) ==> (h.uptime_seconds matches Some(age) && {
                    &&& now >= start ==> age == now - start
                    &&& now < start ==> age == 0
                })
            })
            &&& !(-262143 <= c.year <= 262142) ==> answer == Err::<ContainerHealthView, _>(
                FaultView::Malformed { path: "/proc/stat"@, what: "boot time out of range"@ },
            )
        }),
{
    law_an_instant_is_dated(now as int, c);
}

/// The CPU block says what the kernel wrote: each counter by its own key in
/// `cpu.stat`, the quota and the period as they stand in `cpu.max`, and the weight of
/// `cpu.weight`. Where the quota is `max` or the file is missing, no limit is
/// reported.
pub proof fn law_cpu_use_is_what_the_kernel_wrote(
    target: Seq<char>,
    found: FoundView,
    now: i64,
    created: Option<i64>,
    processes: Seq<Seq<char>>,
    process_count: usize,
    files: CgroupTexts,
    stat: Seq<(Seq<char>, u64)>,
    u: int,
    quota: u64,
    period: u64,
    weight: u64,
)
    requires
        timestamp_of(now as int) is Some,
        are_counters(stat),
        holds(files.cpu_stat, counters_text(stat)),
        0 <= u < stat.len(),
        stat[u].0 == "usage_usec"@,
    ensures
        container_health_of(
            target,
            found,
            now,
            created,
            processes,
            process_count,
            files,
        ) matches Ok(h) && (h.cpu matches Some(cpu) && {
            &&& cpu.usage_usec == stat[u].1
            &&& counts(stat, "user_usec"@, cpu.user_usec)
            &&& counts(stat, "system_usec"@, cpu.system_usec)
            &&& counts(stat, "nr_periods"@, cpu.nr_periods)
            &&& counts(stat, "nr_throttled"@, cpu.nr_throttled)
            &&& counts(stat, "throttled_usec"@, cpu.throttled_usec)
            &&& holds(
                files.cpu_max,
                decimal(quota as nat) + seq![' '] + decimal(period as nat) + seq!['\n'],
            ) ==> cpu.quota_usec == Some(quota) && cpu.period_usec == Some(period)
            &&& files.cpu_max is None || holds(
                files.cpu_max,
                "max"@ + (seq![' '] + decimal(period as nat) + seq!['\n']),
            ) ==> cpu.quota_usec is None && cpu.period_usec is None
            &&& holds(files.cpu_weight, decimal(weight as nat) + seq!['\n']) ==> cpu.weight == Some(
                weight,
            )
            &&& files.cpu_weight is None ==> cpu.weight is None
        }),
{
    reveal_strlit("usage_usec");
    reveal_strlit("user_usec");
    reveal_strlit("system_usec");
    reveal_strlit("nr_periods");
    reveal_strlit("nr_throttled");
    reveal_strlit("throttled_usec");
    law_counters_read_back(stat, "usage_usec"@);
    lemma_counter(stat, "user_usec"@);
    lemma_counter(stat, "system_usec"@);
    lemma_counter(stat, "nr_periods"@);
    lemma_counter(stat, "nr_throttled"@);
    lemma_counter(stat, "throttled_usec"@);
    law_cpu_max_reads_back(quota, period);
    law_no_quota_no_limit(seq![' '] + decimal(period as nat) + seq!['\n']);
    law_single_reads_back(weight);
}

/// There is no CPU block where `cpu.stat` is missing, or does not say how much was
/// used.
pub proof fn law_no_usage_no_cpu_block(
    target: Seq<char>,
    found: FoundView,
    now: i64,
    created: Option<i64>,
    processes: Seq<Seq<char>>,
    process_count: usize,
    files: CgroupTexts,
    stat: Seq<(Seq<char>, u64)>,
)
    requires
        timestamp_of(now as int) is Some,
        files.cpu_stat is None || (holds(files.cpu_stat, counters_text(stat)) && are_counters(stat)
            && (forall|i: int|
            0 <= i < stat.len() ==> (#[trigger] stat[i]).0 != "usage_usec"@)),
    ensures
        container_health_of(
            target,
            found,
            now,
            created,
            processes,
            process_count,
            files,
        ) matches Ok(h) && h.cpu is None,
{
    reveal_strlit("usage_usec");
    if files.cpu_stat is Some {
        law_counters_read_back(stat, "usage_usec"@);
    }
}

/// The memory block says what the kernel wrote: the use of `memory.current`, the hard
/// limit of `memory.max`, the threshold of `memory.high` and the swap of
/// `memory.swap.current`, each under its own name, and each counter of
/// `memory.events` by its own key. A limit is absent where its file is missing or
/// says `max`; the share of the limit is the use of the limit.
pub proof fn law_memory_use_is_what_the_kernel_wrote(
    target: Seq<char>,
    found: FoundView,
    now: i64,
    created: Option<i64>,
    processes: Seq<Seq<char>>,
    process_count: usize,
    files: CgroupTexts,
    current: u64,
    max: u64,
    high: u64,
    swap: u64,
    events: Seq<(Seq<char>, u64)>,
)
    requires
        timestamp_of(now as int) is Some,
        holds(files.memory_current, decimal(current as nat) + seq!['\n']),
        are_counters(events),
    ensures
        container_health_of(
            target,
            found,
            now,
            created,
            processes,
            process_count,
            files,
        ) matches Ok(h) && (h.memory matches Some(m) && {
            &&& m.current_bytes == current
            &&& holds(files.memory_max, decimal(max as nat) + seq!['\n']) ==> {
                &&& m.limit_bytes == Some(max)
                &&& max > 0 ==> (m.limit_used_percent matches Some(share) && share.part == current
                    && share.whole == max)
                &&& max == 0 ==> m.limit_used_percent is None
            }
            &&& files.memory_max is None || holds(files.memory_max, "max"@ + seq!['\n'])
                ==> m.limit_bytes is None && m.limit_used_percent is None
            &&& holds(files.memory_high, decimal(high as nat) + seq!['\n']) ==> m.high_bytes == Some(
                high,
            )
            &&& files.memory_high is None || holds(files.memory_high, "max"@ + seq!['\n'])
                ==> m.high_bytes is None
            &&& holds(files.memory_swap_current, decimal(swap as nat) + seq!['\n'])
                ==> m.swap_current_bytes == Some(swap)
            &&& files.memory_swap_current is None ==> m.swap_current_bytes is None
            &&& holds(files.memory_events, counters_text(events)) ==> {
                &&& counts(events, "max"@, m.limit_hits)
                &&& counts(events, "high"@, m.high_hits)
                &&& counts(events, "oom_kill"@, m.oom_kills)
                &&& counts(events, "oom"@, m.oom_events)
            }
            &&& files.memory_events is None ==> m.limit_hits == 0 && m.high_hits == 0 && m.oom_kills
                == 0 && m.oom_events == 0
        }),
{
    reveal_strlit("max");
    reveal_strlit("high");
    reveal_strlit("oom_kill");
    reveal_strlit("oom");
    law_single_reads_back(current);
    law_single_reads_back(max);
    law_single_reads_back(high);
    law_single_reads_back(swap);
    lemma_max_line();
    lemma_counter(events, "max"@);
    lemma_counter(events, "high"@);
    lemma_counter(events, "oom_kill"@);
    lemma_counter(events, "oom"@);
    lemma_no_counter("max"@);
    lemma_no_counter("high"@);
    lemma_no_counter("oom_kill"@);
    lemma_no_counter("oom"@);
}

/// The word `max` on a line of its own is no limit.
proof fn lemma_max_line()
    ensures
        limit_of("max"@ + seq!['\n']) is None,
{
    reveal_strlit("max");
    let nothing = Seq::<char>::empty();
    law_a_single_number(nothing, "max"@, seq!['\n'], 0, 1);
    assert(nothing + "max"@ + seq!['\n'] =~= "max"@ + seq!['\n']);
}

/// The hard limit is absent exactly where `memory.max` is missing or holds anything
/// but a number: in particular where it says `max`. So is the threshold, by
/// `memory.high`.
pub proof fn law_a_limit_is_absent_only_where_none_is_written(
    target: Seq<char>,
    found: FoundView,
    now: i64,
    created: Option<i64>,
    processes: Seq<Seq<char>>,
    process_count: usize,
    files: CgroupTexts,
    current: u64,
)
    requires
        timestamp_of(now as int) is Some,
        holds(files.memory_current, decimal(current as nat) + seq!['\n']),
    ensures
        container_health_of(
            target,
            found,
            now,
            created,
            processes,
            process_count,
            files,
        ) matches Ok(h) && (h.memory matches Some(m) && {
            &&& m.limit_bytes is None <==> (files.memory_max matches Some(t) ==> u64_of(trim_of(t@))
                is None)
            &&& m.high_bytes is None <==> (files.memory_high matches Some(t) ==> u64_of(trim_of(t@))
                is None)
        }),
{
    law_single_reads_back(current);
    match files.memory_max {
        Some(t) => {
            law_max_is_no_number(t@);
        },
        None => {},
    }
    match files.memory_high {
        Some(t) => {
            law_max_is_no_number(t@);
        },
        None => {},
    }
}

/// There is no memory block where `memory.current` is missing or holds no number, and
/// no process block where `pids.current` is.
pub proof fn law_no_use_no_block(
    target: Seq<char>,
    found: FoundView,
    now: i64,
    created: Option<i64>,
    processes: Seq<Seq<char>>,
    process_count: usize,
    files: CgroupTexts,
)
    requires
        timestamp_of(now as int) is Some,
    ensures
        container_health_of(
            target,
            found,
            now,
            created,
            processes,
            process_count,
            files,
        ) matches Ok(h) && {
            &&& h.memory is None <==> (files.memory_current matches Some(t) ==> u64_of(trim_of(t@))
                is None)
            &&& h.pids is None <==> (files.pids_current matches Some(t) ==> u64_of(trim_of(t@))
                is None)
        },
{
}

/// The process block says what the kernel wrote: the count of `pids.current` and the
/// limit of `pids.max`, which is absent where the file is missing or says `max`.
pub proof fn law_process_count_is_what_the_kernel_wrote(
    target: Seq<char>,
    found: FoundView,
    now: i64,
    created: Option<i64>,
    processes: Seq<Seq<char>>,
    process_count: usize,
    files: CgroupTexts,
    current: u64,
    max: u64,
)
    requires
        timestamp_of(now as int) is Some,
        holds(files.pids_current, decimal(current as nat) + seq!['\n']),
    ensures
        container_health_of(
            target,
            found,
            now,
            created,
            processes,
            process_count,
            files,
        ) matches Ok(h) && (h.pids matches Some(p) && {
            &&& p.current == current
            &&& holds(files.pids_max, decimal(max as nat) + seq!['\n']) ==> p.limit == Some(max)
            &&& files.pids_max is None || holds(files.pids_max, "max"@ + seq!['\n']) ==> p.limit
                is None
        }),
{
    law_single_reads_back(current);
    law_single_reads_back(max);
    lemma_max_line();
}

/// Each resource of the pressure block is what reading the file of that resource
/// gives, one does not show in another, and the block is absent exactly where all
/// three are.
pub proof fn law_each_resource_is_by_its_own_file(
    target: Seq<char>,
    found: FoundView,
    now: i64,
    created: Option<i64>,
    processes: Seq<Seq<char>>,
    process_count: usize,
    files: CgroupTexts,
)
    requires
        timestamp_of(now as int) is Some,
    ensures
        ({
            let cpu = match files.pressure.cpu {
                Some(t) => pressure_of(t@),
                None => None,
            };
            let memory = match files.pressure.memory {
                Some(t) => pressure_of(t@),
                None => None,
            };
            let io = match files.pressure.io {
                Some(t) => pressure_of(t@),
                None => None,
            };
            container_health_of(
                target,
                found,
                now,
                created,
                processes,
                process_count,
                files,
            ) matches Ok(h) && {
                &&& h.pressure is None <==> cpu is None && memory is None && io is None
                &&& h.pressure matches Some(set) ==> set.cpu == cpu && set.memory == memory && set.io
                    == io
            }
        }),
{
}

/// Where the three pressure files are as the kernel writes them, each resource is
/// reported as what was written into its own file.
pub proof fn law_pressure_of_a_container_is_what_the_kernel_wrote(
    target: Seq<char>,
    found: FoundView,
    now: i64,
    created: Option<i64>,
    processes: Seq<Seq<char>>,
    process_count: usize,
    files: CgroupTexts,
    some: (Seq<char>, Seq<char>, Seq<char>, u64),
    full: (Seq<char>, Seq<char>, Seq<char>, u64),
)
    requires
        timestamp_of(now as int) is Some,
        is_float(some.0) && is_float(some.1) && is_float(some.2),
        is_float(full.0) && is_float(full.1) && is_float(full.2),
    ensures
        ({
            let text = stall_line("some"@, some) + seq!['\n'] + (stall_line("full"@, full)
                + seq!['\n']);
            let written = PressureView {
                some_avg10: some.0,
                full_avg10: full.0,
                some_avg60: some.1,
                full_avg60: full.1,
                some_avg300: some.2,
                full_avg300: full.2,
                some_total_us: some.3,
                full_total_us: full.3,
            };
            container_health_of(
                target,
                found,
                now,
                created,
                processes,
                process_count,
                files,
            ) matches Ok(h) && {
                &&& holds(files.pressure.cpu, text) ==> (h.pressure matches Some(set) && set.cpu
                    == Some(written))
                &&& holds(files.pressure.memory, text) ==> (h.pressure matches Some(set)
                    && set.memory == Some(written))
                &&& holds(files.pressure.io, text) ==> (h.pressure matches Some(set) && set.io
                    == Some(written))
            }
        }),
{
    law_pressure_reads_back(some, full);
}

/// The blocks of a container's health are those that its files give by themselves:
/// they depend neither on the clock nor on which container it is.
pub proof fn law_blocks_are_by_their_files(
    target: Seq<char>,
    found: FoundView,
    now: i64,
    created: Option<i64>,
    processes: Seq<Seq<char>>,
    process_count: usize,
    files: CgroupTexts,
)
    requires
        timestamp_of(now as int) is Some,
    ensures
        container_health_of(
            target,
            found,
            now,
            created,
            processes,
            process_count,
            files,
        ) matches Ok(h) && {
            let text = |file: Option<String>|
                match file {
                    Some(t) => Some(t@),
                    None => None::<Seq<char>>,
                };
            &&& h.cpu == cpu_health_of(
                text(files.cpu_stat),
                text(files.cpu_max),
                text(files.cpu_weight),
            )
            &&& h.memory == memory_health_of(
                text(files.memory_current),
                text(files.memory_max),
                text(files.memory_high),
                text(files.memory_swap_current),
                text(files.memory_events),
            )
            &&& h.pids == pids_health_of(text(files.pids_current), text(files.pids_max))
            &&& h.pressure == pressure_set_of(
                text(files.pressure.cpu),
                text(files.pressure.memory),
                text(files.pressure.io),
            )
        },
{
}

/// Of several containers with the ID that is asked for, the first is answered for.
pub proof fn law_the_first_with_the_id_is_selected(
    before: Seq<FoundView>,
    f: FoundView,
    behind: Seq<FoundView>,
)
    requires
        forall|i: int| 0 <= i < before.len() ==> (#[trigger] before[i]).id != f.id,
    ensures
        select_of(before + seq![f] + behind, f.id) == Some(f),
        select_of(before, f.id) is None,
    decreases before.len(),
{
    let all = before + seq![f] + behind;
    if before.len() == 0 {
        assert(all[0] == f);
    } else {
        let rest = before.drop_first();
        assert forall|i: int| 0 <= i < rest.len() implies (#[trigger] rest[i]).id != f.id by {
            assert(rest[i] == before[i + 1]);
        }
        law_the_first_with_the_id_is_selected(rest, f, behind);
        assert(all[0] == before[0]);
        assert(all.drop_first() =~= rest + seq![f] + behind);
    }
}

/// Age is how long before an instant another was, and zero where it was not before.
pub proof fn law_age_is_the_time_since(now: i64, created: i64)
    ensures
        now >= created ==> age_of(now, created) == now - created,
        now < created ==> age_of(now, created) == 0,
{
}

/// Health is shown with its own strings and blocks, each under its own name.
pub proof fn law_container_health_shows_its_parts(h: ContainerHealth, set: PressureSet)
    ensures
        h@.target == h.target@,
        h@.container == h.container@,
        h@.runtime == h.runtime@,
        h@.collected_at == h.collected_at@,
        h@.uptime_seconds == h.uptime_seconds,
        h@.processes.len() == h.processes@.len(),
        forall|i: int|
            0 <= i < h.processes@.len() ==> #[trigger] h@.processes[i] == h.processes@[i]@,
        h@.process_count == h.process_count,
        h@.cpu == h.cpu,
        h@.memory == h.memory,
        h@.pids == h.pids,
        h.pressure is None ==> h@.pressure is None,
        h.pressure matches Some(p) ==> h@.pressure == Some(p@),
        set.cpu is None ==> set@.cpu is None,
        set.cpu matches Some(p) ==> set@.cpu == Some(p@),
        set.memory is None ==> set@.memory is None,
        set.memory matches Some(p) ==> set@.memory == Some(p@),
        set.io is None ==> set@.io is None,
        set.io matches Some(p) ==> set@.io == Some(p@),
{
}

/// A file that is missing has no figure, and one that is there has the figure that it
/// holds; a counter that is missing is zero.
pub proof fn law_a_missing_file_has_no_figure(text: Seq<char>, key: Seq<char>)
    ensures
        single_in(None) is None,
        limit_in(None) is None,
        quota_in(None) is None,
        single_in(Some(text)) == u64_of(trim_of(text)),
        limit_in(Some(text)) == u64_of(trim_of(text)),
        quota_in(Some(text)) == cpu_max_of(text),
        keyed_of(text, key) matches Some(n) ==> counter(text, key) == n,
        keyed_of(text, key) is None ==> counter(text, key) == 0,
{
    law_max_is_no_number(text);
}

} // verus!
