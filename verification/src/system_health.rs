//! Resource-contention health of a machine.
//!
//! Units are normalized where they are read, a number never comes without what it
//! is to be read against, and there are no verdicts. What is derived by
//! floating-point arithmetic is left to the caller: the figures that it is derived
//! from are all here.
use vstd::prelude::*;

use crate::clock::{
    collected_at, collected_at_of, law_the_clock_is_boot_time_plus_uptime, Civil,
};
use crate::discovery::texts;
use crate::fault::{Fault, FaultView};
use crate::guard::law_the_tools_may_read_what_they_read;
use crate::number::{
    decimal, is_digit, is_float, law_small_decimal_reads_back, lemma_decimal, lemma_decimal_solid,
    lemma_float_solid, u32_of, FloatText,
};
use crate::pressure::{
    cpu_pressure_of, law_pressure_reads_back, option_view, parse_cpu_pressure, pressure_of,
    read_pressure_of, stall_line, CpuPressure, CpuPressureView, Pressure, PressureView,
};
use crate::proc::{
    are_fields, count_cpus, cpu_lines, field, field_of, is_cpu_line, law_boot_time_is_on_its_line,
    law_cpu_lines, law_meminfo_fields_read_back, lemma_cpu_lines_concat, meminfo_bytes,
    meminfo_bytes_of, meminfo_text, outcome_view, parse_error, read, read_of, required, result_view,
    text_view, ReadFailure,
};
use crate::table::{are_lines, lemma_table_trimmed, row_lines, table, Row};
use crate::text::{
    begins, is_white, lemma_split_first, lemma_split_one, lemma_trim, lemma_words_cons,
    lemma_words_one, lines_of, split, split_of, trim_of, views, words, words_of,
};

verus! {

broadcast use vstd::string::group_string_axioms;

/// A part and the whole that it is a part of.
#[derive(Clone, Copy, Debug, PartialEq, Eq, Structural)]
pub struct Share {
    pub part: u64,
    pub whole: u64,
}

/// `part` of `whole`, where there is a whole to speak of.
pub open spec fn share_of(part: u64, whole: u64) -> Option<Share> {
    if whole > 0 {
        Some(Share { part, whole })
    } else {
        None
    }
}

/// `part` of `whole`: none where the whole is nothing, so that no percentage is
/// taken of it.
pub fn percent_of(part: u64, whole: u64) -> (r: Option<Share>)
    ensures
        r == share_of(part, whole),
{
    if whole > 0 {
        Some(Share { part, whole })
    } else {
        None
    }
}

/// How long a machine has been up, and how long its CPUs have been idle. The idle
/// time is summed over all CPUs, so it routinely exceeds the uptime.
pub struct Uptime {
    pub seconds: FloatText,
    pub idle_seconds: FloatText,
}

/// Uptime with its figures taken as characters.
pub struct UptimeView {
    pub seconds: Seq<char>,
    pub idle_seconds: Seq<char>,
}

impl View for Uptime {
    type V = UptimeView;

    open spec fn view(&self) -> UptimeView {
        UptimeView { seconds: self.seconds@, idle_seconds: self.idle_seconds@ }
    }
}

/// CPU demand.
///
/// Linux load average counts tasks in uninterruptible sleep as well as tasks
/// waiting for a CPU, so high load alone does not mean CPU saturation.
pub struct CpuHealth {
    /// Online CPUs. The load figures cannot be interpreted without it.
    pub count: u32,
    pub load_1m: FloatText,
    pub load_5m: FloatText,
    pub load_15m: FloatText,
    /// Idle seconds since boot, summed over all CPUs.
    pub idle_seconds: FloatText,
    /// Tasks runnable at the instant of reading.
    pub runnable_tasks: u32,
    /// Tasks that exist, kernel threads among them.
    pub total_tasks: u32,
}

/// CPU demand with its figures taken as characters.
pub struct CpuHealthView {
    pub count: u32,
    pub load_1m: Seq<char>,
    pub load_5m: Seq<char>,
    pub load_15m: Seq<char>,
    pub idle_seconds: Seq<char>,
    pub runnable_tasks: u32,
    pub total_tasks: u32,
}

impl View for CpuHealth {
    type V = CpuHealthView;

    open spec fn view(&self) -> CpuHealthView {
        CpuHealthView {
            count: self.count,
            load_1m: self.load_1m@,
            load_5m: self.load_5m@,
            load_15m: self.load_15m@,
            idle_seconds: self.idle_seconds@,
            runnable_tasks: self.runnable_tasks,
            total_tasks: self.total_tasks,
        }
    }
}

/// Memory use. `MemFree` is not reported: it is near zero on a healthy busy
/// machine, which makes it the most commonly misread field of `/proc/meminfo`.
#[derive(Clone, Copy, Debug, PartialEq, Eq, Structural)]
pub struct MemoryHealth {
    pub total_bytes: u64,
    /// The kernel's own estimate of what new work could allocate without pushing
    /// the machine into swap.
    pub available_bytes: u64,
    /// `available_bytes` of `total_bytes`.
    pub available_percent: Option<Share>,
    /// Page cache.
    pub cached_bytes: u64,
    /// Modified pages not yet written back to disk.
    pub dirty_bytes: u64,
    pub swap_total_bytes: u64,
    /// Swap in use.
    pub swap_used_bytes: u64,
    /// Kernel data structures that cannot be reclaimed under pressure.
    pub kernel_unreclaimable_bytes: u64,
}

impl View for MemoryHealth {
    type V = MemoryHealth;

    open spec fn view(&self) -> MemoryHealth {
        *self
    }
}

/// Kernel pressure-stall information. Any of the three resources may be absent
/// while the others are present.
pub struct PressureSet {
    pub cpu: Option<CpuPressure>,
    pub memory: Option<Pressure>,
    pub io: Option<Pressure>,
}

/// Pressure-stall information with its averages taken as characters.
pub struct PressureSetView {
    pub cpu: Option<CpuPressureView>,
    pub memory: Option<PressureView>,
    pub io: Option<PressureView>,
}

impl View for PressureSet {
    type V = PressureSetView;

    open spec fn view(&self) -> PressureSetView {
        PressureSetView {
            cpu: option_view(self.cpu),
            memory: option_view(self.memory),
            io: option_view(self.io),
        }
    }
}

/// Resource-contention health of a machine.
pub struct SystemHealth {
    /// Echoes the requested target.
    pub target: String,
    /// Wall-clock time of this reading by the target's own clock.
    pub collected_at: String,
    /// Seconds since boot.
    pub uptime_seconds: FloatText,
    pub cpu: CpuHealth,
    pub memory: MemoryHealth,
    /// Absent when the kernel supplies no pressure-stall information at all.
    pub pressure: Option<PressureSet>,
}

/// Health with its strings taken as characters.
pub struct SystemHealthView {
    pub target: Seq<char>,
    pub collected_at: Seq<char>,
    pub uptime_seconds: Seq<char>,
    pub cpu: CpuHealthView,
    pub memory: MemoryHealth,
    pub pressure: Option<PressureSetView>,
}

impl View for SystemHealth {
    type V = SystemHealthView;

    open spec fn view(&self) -> SystemHealthView {
        SystemHealthView {
            target: self.target@,
            collected_at: self.collected_at@,
            uptime_seconds: self.uptime_seconds@,
            cpu: self.cpu@,
            memory: self.memory,
            pressure: option_view(self.pressure),
        }
    }
}

/// The element of `s` at `i`, if there is one.
pub open spec fn at(s: Seq<Seq<char>>, i: int) -> Option<Seq<char>> {
    if 0 <= i < s.len() {
        Some(s[i])
    } else {
        None
    }
}

/// The string of `v` at `i`, if there is one.
fn get<'a>(v: &Vec<&'a str>, i: usize) -> (r: Option<&'a str>)
    ensures
        text_view(r) == at(views(v@), i as int),
{
    assert(views(v@).len() == v@.len());
    if i < v.len() {
        assert(views(v@)[i as int] == v@[i as int]@);
        Some(v[i])
    } else {
        None
    }
}

/// What `/proc/uptime` says: two fields, the uptime and the idle time.
pub open spec fn uptime_of(text: Seq<char>) -> Result<UptimeView, FaultView> {
    let path = "/proc/uptime"@;
    let f = words_of(text);
    match required(field_of::<FloatText>(at(f, 0)), path, "uptime"@) {
        Err(fault) => Err(fault),
        Ok(seconds) => match required(field_of::<FloatText>(at(f, 1)), path, "idle time"@) {
            Err(fault) => Err(fault),
            Ok(idle_seconds) => Ok(UptimeView { seconds, idle_seconds }),
        },
    }
}

/// What `/proc/uptime` says, given what reading it gave.
pub open spec fn read_uptime_of(outcome: Result<Seq<char>, Seq<char>>) -> Result<
    UptimeView,
    FaultView,
> {
    match read_of("/proc/uptime"@, outcome) {
        Err(fault) => Err(fault),
        Ok(text) => uptime_of(text),
    }
}

/// Read `/proc/uptime`, given what reading the file gave.
pub fn read_uptime(outcome: Result<String, ReadFailure>) -> (r: Result<Uptime, Fault>)
    ensures
        result_view(r) == read_uptime_of(outcome_view(outcome)),
{
    proof {
        law_the_tools_may_read_what_they_read();
    }
    let text = match read("/proc/uptime", outcome) {
        Ok(text) => text,
        Err(fault) => {
            return Err(fault);
        },
    };
    let f = words(text.as_str());
    let seconds: FloatText = match field::<FloatText>(get(&f, 0), "/proc/uptime", "uptime") {
        Ok(value) => value,
        Err(fault) => {
            return Err(fault);
        },
    };
    let idle_seconds: FloatText = match field::<FloatText>(
        get(&f, 1),
        "/proc/uptime",
        "idle time",
    ) {
        Ok(value) => value,
        Err(fault) => {
            return Err(fault);
        },
    };
    Ok(Uptime { seconds, idle_seconds })
}

/// The CPU count and the time of reading in `/proc/stat`.
pub open spec fn stat_of(text: Seq<char>, uptime: i64) -> Result<(u32, Seq<char>), FaultView> {
    let count = cpu_lines(lines_of(text)) as u32;
    if count == 0 {
        Err(FaultView::Malformed { path: "/proc/stat"@, what: "no per-CPU lines"@ })
    } else {
        match collected_at_of(text, uptime) {
            Err(fault) => Err(fault),
            Ok(at) => Ok((count, at)),
        }
    }
}

/// The CPU count and the time of reading, given what reading `/proc/stat` gave.
pub open spec fn read_stat_of(outcome: Result<Seq<char>, Seq<char>>, uptime: i64) -> Result<
    (u32, Seq<char>),
    FaultView,
> {
    match read_of("/proc/stat"@, outcome) {
        Err(fault) => Err(fault),
        Ok(text) => stat_of(text, uptime),
    }
}

/// Read `/proc/stat`, given what reading the file gave and the whole seconds the
/// machine has been up. The per-CPU lines are the authority on how many CPUs are
/// online; boot time plus uptime is the machine's own clock.
fn read_stat(outcome: Result<String, ReadFailure>, uptime: i64) -> (r: Result<(u32, String), Fault>)
    ensures
        match r {
            Ok((count, at)) => read_stat_of(outcome_view(outcome), uptime) == Ok::<_, FaultView>(
                (count, at@),
            ),
            Err(fault) => read_stat_of(outcome_view(outcome), uptime) == Err::<
                (u32, Seq<char>),
                _,
            >(fault@),
        },
{
    proof {
        law_the_tools_may_read_what_they_read();
    }
    let text = match read("/proc/stat", outcome) {
        Ok(text) => text,
        Err(fault) => {
            return Err(fault);
        },
    };
    let count: u32 = count_cpus(text.as_str());
    if count == 0 {
        return Err(parse_error("/proc/stat", "no per-CPU lines"));
    }
    match collected_at(text.as_str(), uptime) {
        Ok(at) => Ok((count, at)),
        Err(fault) => Err(fault),
    }
}

/// The three load averages and the two task counts of `/proc/loadavg`.
pub struct Load {
    pub load_1m: FloatText,
    pub load_5m: FloatText,
    pub load_15m: FloatText,
    pub runnable_tasks: u32,
    pub total_tasks: u32,
}

/// Load with its averages taken as characters.
pub struct LoadView {
    pub load_1m: Seq<char>,
    pub load_5m: Seq<char>,
    pub load_15m: Seq<char>,
    pub runnable_tasks: u32,
    pub total_tasks: u32,
}

impl View for Load {
    type V = LoadView;

    open spec fn view(&self) -> LoadView {
        LoadView {
            load_1m: self.load_1m@,
            load_5m: self.load_5m@,
            load_15m: self.load_15m@,
            runnable_tasks: self.runnable_tasks,
            total_tasks: self.total_tasks,
        }
    }
}

/// What `/proc/loadavg` says: three averages, then runnable and total tasks with
/// a slash between them.
pub open spec fn load_of(text: Seq<char>) -> Result<LoadView, FaultView> {
    let path = "/proc/loadavg"@;
    let f = words_of(text);
    let tasks = split_of(
        match at(f, 3) {
            Some(word) => word,
            None => Seq::empty(),
        },
        '/',
    );
    match required(field_of::<FloatText>(at(f, 0)), path, "1-minute load"@) {
        Err(fault) => Err(fault),
        Ok(load_1m) => match required(field_of::<FloatText>(at(f, 1)), path, "5-minute load"@) {
            Err(fault) => Err(fault),
            Ok(load_5m) => match required(
                field_of::<FloatText>(at(f, 2)),
                path,
                "15-minute load"@,
            ) {
                Err(fault) => Err(fault),
                Ok(load_15m) => match required(
                    field_of::<u32>(at(tasks, 0)),
                    path,
                    "runnable tasks"@,
                ) {
                    Err(fault) => Err(fault),
                    Ok(runnable_tasks) => match required(
                        field_of::<u32>(at(tasks, 1)),
                        path,
                        "total tasks"@,
                    ) {
                        Err(fault) => Err(fault),
                        Ok(total_tasks) => Ok(
                            LoadView { load_1m, load_5m, load_15m, runnable_tasks, total_tasks },
                        ),
                    },
                },
            },
        },
    }
}

/// What `/proc/loadavg` says, given what reading it gave.
pub open spec fn read_load_of(outcome: Result<Seq<char>, Seq<char>>) -> Result<
    LoadView,
    FaultView,
> {
    match read_of("/proc/loadavg"@, outcome) {
        Err(fault) => Err(fault),
        Ok(text) => load_of(text),
    }
}

/// Read `/proc/loadavg`, given what reading the file gave.
fn read_load(outcome: Result<String, ReadFailure>) -> (r: Result<Load, Fault>)
    ensures
        result_view(r) == read_load_of(outcome_view(outcome)),
{
    proof {
        law_the_tools_may_read_what_they_read();
    }
    let text = match read("/proc/loadavg", outcome) {
        Ok(text) => text,
        Err(fault) => {
            return Err(fault);
        },
    };
    let f = words(text.as_str());
    let load_1m: FloatText = match field::<FloatText>(
        get(&f, 0),
        "/proc/loadavg",
        "1-minute load",
    ) {
        Ok(value) => value,
        Err(fault) => {
            return Err(fault);
        },
    };
    let load_5m: FloatText = match field::<FloatText>(
        get(&f, 1),
        "/proc/loadavg",
        "5-minute load",
    ) {
        Ok(value) => value,
        Err(fault) => {
            return Err(fault);
        },
    };
    let load_15m: FloatText = match field::<FloatText>(
        get(&f, 2),
        "/proc/loadavg",
        "15-minute load",
    ) {
        Ok(value) => value,
        Err(fault) => {
            return Err(fault);
        },
    };
    let pair = match get(&f, 3) {
        Some(word) => word,
        None => "",
    };
    proof {
        reveal_strlit("");
        assert(""@ =~= Seq::empty());
    }
    let tasks = split(pair, '/');
    let runnable_tasks: u32 = match field::<u32>(
        get(&tasks, 0),
        "/proc/loadavg",
        "runnable tasks",
    ) {
        Ok(value) => value,
        Err(fault) => {
            return Err(fault);
        },
    };
    let total_tasks: u32 = match field::<u32>(get(&tasks, 1), "/proc/loadavg", "total tasks") {
        Ok(value) => value,
        Err(fault) => {
            return Err(fault);
        },
    };
    Ok(Load { load_1m, load_5m, load_15m, runnable_tasks, total_tasks })
}

/// One required field of `/proc/meminfo`, in bytes.
pub open spec fn mem_of(meminfo: Seq<char>, key: Seq<char>) -> Result<u64, FaultView> {
    required(meminfo_bytes_of(meminfo, key), "/proc/meminfo"@, key)
}

/// What `/proc/meminfo` says. Where several fields are missing, the first of them
/// in this order is the one that is named.
pub open spec fn memory_of(meminfo: Seq<char>) -> Result<MemoryHealth, FaultView> {
    match (
        mem_of(meminfo, "MemTotal"@),
        mem_of(meminfo, "MemAvailable"@),
        mem_of(meminfo, "SwapTotal"@),
        mem_of(meminfo, "SwapFree"@),
        mem_of(meminfo, "Cached"@),
        mem_of(meminfo, "Dirty"@),
        mem_of(meminfo, "SUnreclaim"@),
    ) {
        (Err(fault), _, _, _, _, _, _) => Err(fault),
        (_, Err(fault), _, _, _, _, _) => Err(fault),
        (_, _, Err(fault), _, _, _, _) => Err(fault),
        (_, _, _, Err(fault), _, _, _) => Err(fault),
        (_, _, _, _, Err(fault), _, _) => Err(fault),
        (_, _, _, _, _, Err(fault), _) => Err(fault),
        (_, _, _, _, _, _, Err(fault)) => Err(fault),
        (
            Ok(total),
            Ok(available),
            Ok(swap_total),
            Ok(swap_free),
            Ok(cached),
            Ok(dirty),
            Ok(unreclaimable),
        ) => Ok(
            MemoryHealth {
                total_bytes: total,
                available_bytes: available,
                available_percent: share_of(available, total),
                cached_bytes: cached,
                dirty_bytes: dirty,
                swap_total_bytes: swap_total,
                swap_used_bytes: if swap_free <= swap_total {
                    (swap_total - swap_free) as u64
                } else {
                    0
                },
                kernel_unreclaimable_bytes: unreclaimable,
            },
        ),
    }
}

/// What `/proc/meminfo` says, given what reading it gave.
pub open spec fn read_memory_of(outcome: Result<Seq<char>, Seq<char>>) -> Result<
    MemoryHealth,
    FaultView,
> {
    match read_of("/proc/meminfo"@, outcome) {
        Err(fault) => Err(fault),
        Ok(text) => memory_of(text),
    }
}

/// One required field of `/proc/meminfo`, in bytes.
fn mem(meminfo: &str, key: &str) -> (r: Result<u64, Fault>)
    ensures
        result_view(r) == mem_of(meminfo@, key@),
{
    match meminfo_bytes(meminfo, key) {
        Some(bytes) => Ok(bytes),
        None => Err(parse_error("/proc/meminfo", key)),
    }
}

/// Read `/proc/meminfo`, given what reading the file gave.
fn read_memory(outcome: Result<String, ReadFailure>) -> (r: Result<MemoryHealth, Fault>)
    ensures
        result_view(r) == read_memory_of(outcome_view(outcome)),
{
    proof {
        law_the_tools_may_read_what_they_read();
    }
    let content = match read("/proc/meminfo", outcome) {
        Ok(text) => text,
        Err(fault) => {
            return Err(fault);
        },
    };
    let meminfo = content.as_str();
    let total_bytes: u64 = match mem(meminfo, "MemTotal") {
        Ok(bytes) => bytes,
        Err(fault) => {
            return Err(fault);
        },
    };
    let available_bytes: u64 = match mem(meminfo, "MemAvailable") {
        Ok(bytes) => bytes,
        Err(fault) => {
            return Err(fault);
        },
    };
    let swap_total_bytes: u64 = match mem(meminfo, "SwapTotal") {
        Ok(bytes) => bytes,
        Err(fault) => {
            return Err(fault);
        },
    };
    let swap_free_bytes: u64 = match mem(meminfo, "SwapFree") {
        Ok(bytes) => bytes,
        Err(fault) => {
            return Err(fault);
        },
    };
    let cached_bytes: u64 = match mem(meminfo, "Cached") {
        Ok(bytes) => bytes,
        Err(fault) => {
            return Err(fault);
        },
    };
    let dirty_bytes: u64 = match mem(meminfo, "Dirty") {
        Ok(bytes) => bytes,
        Err(fault) => {
            return Err(fault);
        },
    };
    let kernel_unreclaimable_bytes: u64 = match mem(meminfo, "SUnreclaim") {
        Ok(bytes) => bytes,
        Err(fault) => {
            return Err(fault);
        },
    };
    Ok(
        MemoryHealth {
            total_bytes,
            available_bytes,
            available_percent: percent_of(available_bytes, total_bytes),
            cached_bytes,
            dirty_bytes,
            swap_total_bytes,
            swap_used_bytes: swap_total_bytes.saturating_sub(swap_free_bytes),
            kernel_unreclaimable_bytes,
        },
    )
}

/// The texts of the three pressure files, where the kernel provides them.
pub struct PressureTexts {
    pub cpu: Option<String>,
    pub memory: Option<String>,
    pub io: Option<String>,
}

/// The characters of a string that may be missing.
pub open spec fn optional(text: Option<String>) -> Option<Seq<char>> {
    match text {
        Some(t) => Some(t@),
        None => None,
    }
}

/// The text of a file that may be missing.
pub fn as_text(text: &Option<String>) -> (r: Option<&str>)
    ensures
        text_view(r) == optional(*text),
{
    match text {
        Some(t) => Some(t.as_str()),
        None => None,
    }
}

/// The CPU pressure in a file that may be missing.
pub open spec fn read_cpu_pressure_of(text: Option<Seq<char>>) -> Option<CpuPressureView> {
    match text {
        Some(t) => cpu_pressure_of(t),
        None => None,
    }
}

/// The pressure block: each resource by its own file alone, and no block where
/// none of the three is there.
pub open spec fn pressure_set_of(
    cpu: Option<Seq<char>>,
    memory: Option<Seq<char>>,
    io: Option<Seq<char>>,
) -> Option<PressureSetView> {
    let set = PressureSetView {
        cpu: read_cpu_pressure_of(cpu),
        memory: read_pressure_of(memory),
        io: read_pressure_of(io),
    };
    if set.cpu is None && set.memory is None && set.io is None {
        None
    } else {
        Some(set)
    }
}

/// Assemble the pressure block, or nothing if the kernel offers no pressure-stall
/// information at all.
///
/// One unreadable file says nothing about the other two, so it must not discard
/// readings already in hand.
pub fn read_pressure(texts: &PressureTexts) -> (r: Option<PressureSet>)
    ensures
        option_view(r) == pressure_set_of(
            optional(texts.cpu),
            optional(texts.memory),
            optional(texts.io),
        ),
{
    let cpu = match as_text(&texts.cpu) {
        Some(t) => parse_cpu_pressure(t),
        None => None,
    };
    let memory = crate::pressure::read_pressure(as_text(&texts.memory));
    let io = crate::pressure::read_pressure(as_text(&texts.io));
    if cpu.is_none() && memory.is_none() && io.is_none() {
        return None;
    }
    Some(PressureSet { cpu, memory, io })
}

/// What the operator is told of one pressure file. A missing file is the expected
/// shape of a kernel without pressure-stall information and is silent; one that is
/// there and does not parse is a real anomaly against a stable format.
pub open spec fn anomaly_of(path: Seq<char>, is_there: bool, parses: bool) -> Seq<Seq<char>> {
    if is_there && !parses {
        seq!["ops-mcp: unexpected layout in "@ + path + "; omitting it"@]
    } else {
        Seq::empty()
    }
}

/// What the operator is told of the three pressure files.
pub open spec fn anomalies_of(
    cpu: Option<Seq<char>>,
    memory: Option<Seq<char>>,
    io: Option<Seq<char>>,
) -> Seq<Seq<char>> {
    anomaly_of("/proc/pressure/cpu"@, cpu is Some, read_cpu_pressure_of(cpu) is Some) + anomaly_of(
        "/proc/pressure/memory"@,
        memory is Some,
        read_pressure_of(memory) is Some,
    ) + anomaly_of("/proc/pressure/io"@, io is Some, read_pressure_of(io) is Some)
}

/// Add what the operator is told of one pressure file to `lines`.
fn note_anomaly(lines: &mut Vec<String>, path: &str, is_there: bool, parses: bool)
    ensures
        texts(final(lines)@) == texts(old(lines)@) + anomaly_of(path@, is_there, parses),
{
    let ghost before = texts(lines@);
    if is_there && !parses {
        let mut line = "ops-mcp: unexpected layout in ".to_owned();
        line.append(path);
        line.append("; omitting it");
        lines.push(line);
    }
    assert(texts(lines@) =~= before + anomaly_of(path@, is_there, parses));
}

/// What the operator is told of the three pressure files: a line for each that is
/// there and does not parse.
pub fn anomalies(files: &PressureTexts) -> (r: Vec<String>)
    ensures
        texts(r@) == anomalies_of(
            optional(files.cpu),
            optional(files.memory),
            optional(files.io),
        ),
{
    let mut r: Vec<String> = Vec::new();
    assert(texts(r@) =~= Seq::empty());
    let cpu = match as_text(&files.cpu) {
        Some(t) => parse_cpu_pressure(t),
        None => None,
    };
    note_anomaly(&mut r, "/proc/pressure/cpu", files.cpu.is_some(), cpu.is_some());
    let memory = crate::pressure::read_pressure(as_text(&files.memory));
    note_anomaly(&mut r, "/proc/pressure/memory", files.memory.is_some(), memory.is_some());
    let io = crate::pressure::read_pressure(as_text(&files.io));
    note_anomaly(&mut r, "/proc/pressure/io", files.io.is_some(), io.is_some());
    r
}

/// The health of a machine, given what its files said. Where several files are at
/// fault, the first in this order is the one that is named.
pub open spec fn system_health_of(
    target: Seq<char>,
    uptime: Result<UptimeView, FaultView>,
    stat: Result<(u32, Seq<char>), FaultView>,
    load: Result<LoadView, FaultView>,
    memory: Result<MemoryHealth, FaultView>,
    pressure: Option<PressureSetView>,
) -> Result<SystemHealthView, FaultView> {
    match (uptime, stat, load, memory) {
        (Err(fault), _, _, _) => Err(fault),
        (_, Err(fault), _, _) => Err(fault),
        (_, _, Err(fault), _) => Err(fault),
        (_, _, _, Err(fault)) => Err(fault),
        (Ok(up), Ok((count, at)), Ok(l), Ok(m)) => Ok(
            SystemHealthView {
                target,
                collected_at: at,
                uptime_seconds: up.seconds,
                cpu: CpuHealthView {
                    count,
                    load_1m: l.load_1m,
                    load_5m: l.load_5m,
                    load_15m: l.load_15m,
                    idle_seconds: up.idle_seconds,
                    runnable_tasks: l.runnable_tasks,
                    total_tasks: l.total_tasks,
                },
                memory: m,
                pressure,
            },
        ),
    }
}

/// Collect health, given what reading each file gave.
///
/// `uptime_whole` is the uptime cut to whole seconds. `target` is carried only so
/// that the response can echo it.
pub fn collect(
    target: String,
    uptime: Result<Uptime, Fault>,
    uptime_whole: i64,
    stat: Result<String, ReadFailure>,
    loadavg: Result<String, ReadFailure>,
    meminfo: Result<String, ReadFailure>,
    pressure: &PressureTexts,
) -> (r: Result<SystemHealth, Fault>)
    ensures
        result_view(r) == system_health_of(
            target@,
            result_view(uptime),
            read_stat_of(outcome_view(stat), uptime_whole),
            read_load_of(outcome_view(loadavg)),
            read_memory_of(outcome_view(meminfo)),
            pressure_set_of(
                optional(pressure.cpu),
                optional(pressure.memory),
                optional(pressure.io),
            ),
        ),
{
    let up = match uptime {
        Ok(up) => up,
        Err(fault) => {
            return Err(fault);
        },
    };
    let (count, at) = match read_stat(stat, uptime_whole) {
        Ok(pair) => pair,
        Err(fault) => {
            return Err(fault);
        },
    };
    let load = match read_load(loadavg) {
        Ok(load) => load,
        Err(fault) => {
            return Err(fault);
        },
    };
    let memory = match read_memory(meminfo) {
        Ok(memory) => memory,
        Err(fault) => {
            return Err(fault);
        },
    };
    Ok(
        SystemHealth {
            target,
            collected_at: at,
            uptime_seconds: up.seconds,
            cpu: CpuHealth {
                count,
                load_1m: load.load_1m,
                load_5m: load.load_5m,
                load_15m: load.load_15m,
                idle_seconds: up.idle_seconds,
                runnable_tasks: load.runnable_tasks,
                total_tasks: load.total_tasks,
            },
            memory,
            pressure: read_pressure(pressure),
        },
    )
}

/// A figure never comes without what it is to be read against: the load comes
/// with a CPU count above zero, and the swap in use with a total that it does not
/// exceed.
pub proof fn law_figures_come_with_denominators(
    target: Seq<char>,
    uptime: Result<UptimeView, FaultView>,
    stat: Result<Seq<char>, Seq<char>>,
    uptime_whole: i64,
    load: Result<LoadView, FaultView>,
    meminfo: Result<Seq<char>, Seq<char>>,
    pressure: Option<PressureSetView>,
)
    ensures
        system_health_of(
            target,
            uptime,
            read_stat_of(stat, uptime_whole),
            load,
            read_memory_of(meminfo),
            pressure,
        ) matches Ok(h) ==> {
            &&& h.cpu.count > 0
            &&& h.memory.swap_used_bytes <= h.memory.swap_total_bytes
            &&& h.memory.available_percent == share_of(
                h.memory.available_bytes,
                h.memory.total_bytes,
            )
        },
{
}

/// The pressure block never decides whether there is an answer, and changes
/// nothing else in it.
pub proof fn law_pressure_is_optional(
    target: Seq<char>,
    uptime: Result<UptimeView, FaultView>,
    stat: Result<(u32, Seq<char>), FaultView>,
    load: Result<LoadView, FaultView>,
    memory: Result<MemoryHealth, FaultView>,
    pressure: Option<PressureSetView>,
)
    ensures
        match system_health_of(target, uptime, stat, load, memory, None) {
            Ok(h) => system_health_of(target, uptime, stat, load, memory, pressure) == Ok::<
                _,
                FaultView,
            >(SystemHealthView { pressure, ..h }),
            Err(fault) => system_health_of(target, uptime, stat, load, memory, pressure) == Err::<
                SystemHealthView,
                _,
            >(fault),
        },
{
}

/// The three resources are read independently: whether the file of one is there,
/// and what is in it, does not show in what is reported of the others.
pub proof fn law_resources_are_independent(
    cpu: Option<Seq<char>>,
    memory: Option<Seq<char>>,
    io: Option<Seq<char>>,
)
    ensures
        pressure_set_of(cpu, memory, io) matches Some(set) ==> {
            &&& set.cpu == read_cpu_pressure_of(cpu)
            &&& set.memory == read_pressure_of(memory)
            &&& set.io == read_pressure_of(io)
        },
        pressure_set_of(cpu, memory, io) is None <==> read_cpu_pressure_of(cpu) is None
            && read_pressure_of(memory) is None && read_pressure_of(io) is None,
{
}

/// What `/proc/uptime` says is read back as the two figures that the kernel wrote.
pub proof fn law_uptime_reads_back(seconds: Seq<char>, idle_seconds: Seq<char>)
    requires
        is_float(seconds),
        is_float(idle_seconds),
    ensures
        read_uptime_of(Ok(seconds + seq![' '] + idle_seconds + seq!['\n'])) == Ok::<_, FaultView>(
            UptimeView { seconds, idle_seconds },
        ),
{
    lemma_float_solid(seconds);
    lemma_float_solid(idle_seconds);
    let line = seconds + seq![' '] + idle_seconds;
    let nothing = Seq::<char>::empty();
    assert(line[0] == seconds[0]);
    assert(line.last() == idle_seconds[idle_seconds.len() - 1]);
    lemma_trim(nothing, line, seq!['\n']);
    assert(nothing + line + seq!['\n'] =~= line + seq!['\n']);
    lemma_words_one(idle_seconds);
    lemma_words_cons(seconds, idle_seconds);
    assert(words_of(line) =~= seq![seconds, idle_seconds]);
}

/// What `/proc/loadavg` says is read back as the averages and the task counts that
/// the kernel wrote, whatever the last process was.
pub proof fn law_load_reads_back(load: LoadView, last_pid: u32)
    requires
        is_float(load.load_1m),
        is_float(load.load_5m),
        is_float(load.load_15m),
    ensures
        read_load_of(
            Ok(
                load.load_1m + seq![' '] + (load.load_5m + seq![' '] + (load.load_15m + seq![' '] + (
                decimal(load.runnable_tasks as nat) + seq!['/'] + decimal(load.total_tasks as nat)
                    + seq![' '] + decimal(last_pid as nat)))) + seq!['\n'],
            ),
        ) == Ok::<_, FaultView>(load),
{
    let running = decimal(load.runnable_tasks as nat);
    let total = decimal(load.total_tasks as nat);
    let pid = decimal(last_pid as nat);
    let tasks = running + seq!['/'] + total;
    lemma_float_solid(load.load_1m);
    lemma_float_solid(load.load_5m);
    lemma_float_solid(load.load_15m);
    lemma_decimal_solid(load.runnable_tasks as nat);
    lemma_decimal_solid(load.total_tasks as nat);
    lemma_decimal_solid(last_pid as nat);
    assert forall|i: int| 0 <= i < tasks.len() implies !is_white(#[trigger] tasks[i]) by {
        if i < running.len() {
            assert(tasks[i] == running[i]);
        } else if i > running.len() {
            assert(tasks[i] == total[i - running.len() - 1]);
        }
    }
    lemma_words_one(pid);
    lemma_words_cons(tasks, pid);
    let d = tasks + seq![' '] + pid;
    lemma_words_cons(load.load_15m, d);
    let c = load.load_15m + seq![' '] + d;
    lemma_words_cons(load.load_5m, c);
    let b = load.load_5m + seq![' '] + c;
    lemma_words_cons(load.load_1m, b);
    let line = load.load_1m + seq![' '] + b;
    assert(words_of(line) =~= seq![load.load_1m, load.load_5m, load.load_15m, tasks, pid]);
    let nothing = Seq::<char>::empty();
    assert(line[0] == load.load_1m[0]);
    assert(d.last() == pid[pid.len() - 1]);
    assert(c.last() == d.last());
    assert(b.last() == c.last());
    assert(line.last() == b.last());
    lemma_trim(nothing, line, seq!['\n']);
    assert(nothing + line + seq!['\n'] =~= line + seq!['\n']);
    lemma_no_slash(load.runnable_tasks as nat);
    lemma_no_slash(load.total_tasks as nat);
    lemma_split_first(running, '/', total);
    lemma_split_one(total, '/');
    assert(split_of(tasks, '/') =~= seq![running, total]);
    law_small_decimal_reads_back(load.runnable_tasks);
    law_small_decimal_reads_back(load.total_tasks);
}

/// A decimal number has no slash in it.
proof fn lemma_no_slash(n: nat)
    ensures
        !decimal(n).contains('/'),
{
    lemma_decimal(n);
    let s = decimal(n);
    if s.contains('/') {
        let i = choose|i: int| 0 <= i < s.len() && s[i] == '/';
        assert(is_digit(s[i]));
    }
}

/// A share is of a whole that there is, and keeps both its figures; of nothing there
/// is none.
pub proof fn law_a_share_keeps_its_figures(part: u64, whole: u64)
    ensures
        share_of(part, 0) is None,
        whole > 0 ==> (share_of(part, whole) matches Some(s) && s.part == part && s.whole == whole),
{
}

/// Memory is what `/proc/meminfo` says, each figure by the field of its own name and
/// in bytes, whatever the order of the lines and whatever other fields there are.
/// Swap in use is the total less what is free, and nothing where more is free than
/// there is.
pub proof fn law_memory_is_what_the_kernel_wrote(
    fields: Seq<(Seq<char>, nat, u64)>,
    total: int,
    available: int,
    swap_total: int,
    swap_free: int,
    cached: int,
    dirty: int,
    unreclaimable: int,
)
    requires
        are_fields(fields),
        forall|i: int| 0 <= i < fields.len() ==> (#[trigger] fields[i]).2 * 1024 <= u64::MAX,
        0 <= total < fields.len() && fields[total].0 == "MemTotal"@,
        0 <= available < fields.len() && fields[available].0 == "MemAvailable"@,
        0 <= swap_total < fields.len() && fields[swap_total].0 == "SwapTotal"@,
        0 <= swap_free < fields.len() && fields[swap_free].0 == "SwapFree"@,
        0 <= cached < fields.len() && fields[cached].0 == "Cached"@,
        0 <= dirty < fields.len() && fields[dirty].0 == "Dirty"@,
        0 <= unreclaimable < fields.len() && fields[unreclaimable].0 == "SUnreclaim"@,
    ensures
        read_memory_of(Ok(meminfo_text(fields))) matches Ok(m) && {
            &&& m.total_bytes == fields[total].2 * 1024
            &&& m.available_bytes == fields[available].2 * 1024
            &&& m.swap_total_bytes == fields[swap_total].2 * 1024
            &&& m.cached_bytes == fields[cached].2 * 1024
            &&& m.dirty_bytes == fields[dirty].2 * 1024
            &&& m.kernel_unreclaimable_bytes == fields[unreclaimable].2 * 1024
            &&& fields[swap_free].2 <= fields[swap_total].2 ==> m.swap_used_bytes == fields[swap_total].2
                * 1024 - fields[swap_free].2 * 1024
            &&& fields[swap_free].2 > fields[swap_total].2 ==> m.swap_used_bytes == 0
            &&& fields[total].2 > 0 ==> m.available_percent == Some(
                Share {
                    part: (fields[available].2 * 1024) as u64,
                    whole: (fields[total].2 * 1024) as u64,
                },
            )
            &&& fields[total].2 == 0 ==> m.available_percent is None
        },
{
    reveal_strlit("MemTotal");
    reveal_strlit("MemAvailable");
    reveal_strlit("SwapTotal");
    reveal_strlit("SwapFree");
    reveal_strlit("Cached");
    reveal_strlit("Dirty");
    reveal_strlit("SUnreclaim");
    law_meminfo_fields_read_back(fields, "MemTotal"@);
    law_meminfo_fields_read_back(fields, "MemAvailable"@);
    law_meminfo_fields_read_back(fields, "SwapTotal"@);
    law_meminfo_fields_read_back(fields, "SwapFree"@);
    law_meminfo_fields_read_back(fields, "Cached"@);
    law_meminfo_fields_read_back(fields, "Dirty"@);
    law_meminfo_fields_read_back(fields, "SUnreclaim"@);
    assert(mem_of(trim_of(meminfo_text(fields)), "MemTotal"@) == Ok::<_, FaultView>(
        (fields[total].2 * 1024) as u64,
    ));
    assert(mem_of(trim_of(meminfo_text(fields)), "MemAvailable"@) == Ok::<_, FaultView>(
        (fields[available].2 * 1024) as u64,
    ));
    assert(mem_of(trim_of(meminfo_text(fields)), "SwapTotal"@) == Ok::<_, FaultView>(
        (fields[swap_total].2 * 1024) as u64,
    ));
    assert(mem_of(trim_of(meminfo_text(fields)), "SwapFree"@) == Ok::<_, FaultView>(
        (fields[swap_free].2 * 1024) as u64,
    ));
    assert(mem_of(trim_of(meminfo_text(fields)), "Cached"@) == Ok::<_, FaultView>(
        (fields[cached].2 * 1024) as u64,
    ));
    assert(mem_of(trim_of(meminfo_text(fields)), "Dirty"@) == Ok::<_, FaultView>(
        (fields[dirty].2 * 1024) as u64,
    ));
    assert(mem_of(trim_of(meminfo_text(fields)), "SUnreclaim"@) == Ok::<_, FaultView>(
        (fields[unreclaimable].2 * 1024) as u64,
    ));
}

/// Every figure of memory must be there: the first that is not is the one that is
/// named.
pub proof fn law_the_first_missing_field_is_named(meminfo: Seq<char>)
    ensures
        meminfo_bytes_of(meminfo, "MemTotal"@) is None ==> memory_of(meminfo) == Err::<MemoryHealth, _>(
            FaultView::Malformed { path: "/proc/meminfo"@, what: "MemTotal"@ },
        ),
        meminfo_bytes_of(meminfo, "MemTotal"@) is Some && meminfo_bytes_of(meminfo, "MemAvailable"@) is None ==> memory_of(meminfo) == Err::<MemoryHealth, _>(
            FaultView::Malformed { path: "/proc/meminfo"@, what: "MemAvailable"@ },
        ),
        meminfo_bytes_of(meminfo, "MemTotal"@) is Some && meminfo_bytes_of(meminfo, "MemAvailable"@) is Some && meminfo_bytes_of(meminfo, "SwapTotal"@) is None ==> memory_of(meminfo) == Err::<MemoryHealth, _>(
            FaultView::Malformed { path: "/proc/meminfo"@, what: "SwapTotal"@ },
        ),
        meminfo_bytes_of(meminfo, "MemTotal"@) is Some && meminfo_bytes_of(meminfo, "MemAvailable"@) is Some && meminfo_bytes_of(meminfo, "SwapTotal"@) is Some && meminfo_bytes_of(meminfo, "SwapFree"@) is None ==> memory_of(meminfo) == Err::<MemoryHealth, _>(
            FaultView::Malformed { path: "/proc/meminfo"@, what: "SwapFree"@ },
        ),
        meminfo_bytes_of(meminfo, "MemTotal"@) is Some && meminfo_bytes_of(meminfo, "MemAvailable"@) is Some && meminfo_bytes_of(meminfo, "SwapTotal"@) is Some && meminfo_bytes_of(meminfo, "SwapFree"@) is Some && meminfo_bytes_of(meminfo, "Cached"@) is None ==> memory_of(meminfo) == Err::<MemoryHealth, _>(
            FaultView::Malformed { path: "/proc/meminfo"@, what: "Cached"@ },
        ),
        meminfo_bytes_of(meminfo, "MemTotal"@) is Some && meminfo_bytes_of(meminfo, "MemAvailable"@) is Some && meminfo_bytes_of(meminfo, "SwapTotal"@) is Some && meminfo_bytes_of(meminfo, "SwapFree"@) is Some && meminfo_bytes_of(meminfo, "Cached"@) is Some && meminfo_bytes_of(meminfo, "Dirty"@) is None ==> memory_of(meminfo) == Err::<MemoryHealth, _>(
            FaultView::Malformed { path: "/proc/meminfo"@, what: "Dirty"@ },
        ),
        meminfo_bytes_of(meminfo, "MemTotal"@) is Some && meminfo_bytes_of(meminfo, "MemAvailable"@) is Some && meminfo_bytes_of(meminfo, "SwapTotal"@) is Some && meminfo_bytes_of(meminfo, "SwapFree"@) is Some && meminfo_bytes_of(meminfo, "Cached"@) is Some && meminfo_bytes_of(meminfo, "Dirty"@) is Some && meminfo_bytes_of(meminfo, "SUnreclaim"@) is None ==> memory_of(meminfo) == Err::<MemoryHealth, _>(
            FaultView::Malformed { path: "/proc/meminfo"@, what: "SUnreclaim"@ },
        ),
{
}

/// `/proc/stat` as the kernel writes it: a line that sums all CPUs, a line for each
/// CPU by its number, and other lines.
pub open spec fn stat_rows(sums: Seq<char>, cpus: Seq<Seq<char>>, others: Seq<Row>) -> Seq<Row> {
    seq![Row { label: "cpu "@, value: sums }] + Seq::new(
        cpus.len(),
        |i: int| Row { label: "cpu"@ + decimal(i as nat), value: cpus[i] },
    ) + others
}

/// A list of lines that all are per-CPU lines, or none.
proof fn lemma_all_or_none(lines: Seq<Seq<char>>)
    ensures
        (forall|i: int| 0 <= i < lines.len() ==> is_cpu_line(#[trigger] lines[i])) ==> cpu_lines(
            lines,
        ) == lines.len(),
        (forall|i: int| 0 <= i < lines.len() ==> !is_cpu_line(#[trigger] lines[i])) ==> cpu_lines(
            lines,
        ) == 0,
    decreases lines.len(),
{
    if lines.len() > 0 {
        let init = lines.drop_last();
        lemma_all_or_none(init);
        assert(lines.last() == lines[lines.len() - 1]);
        if forall|i: int| 0 <= i < lines.len() ==> is_cpu_line(#[trigger] lines[i]) {
            assert forall|i: int| 0 <= i < init.len() implies is_cpu_line(#[trigger] init[i]) by {
                assert(is_cpu_line(lines[i]));
            }
        }
        if forall|i: int| 0 <= i < lines.len() ==> !is_cpu_line(#[trigger] lines[i]) {
            assert forall|i: int| 0 <= i < init.len() implies !is_cpu_line(#[trigger] init[i]) by {
                assert(!is_cpu_line(lines[i]));
            }
        }
    }
}

/// As many CPUs are counted as `/proc/stat` has lines for, and the reading is dated
/// by the boot time in it plus the uptime. Without a CPU, that is what is wrong.
pub proof fn law_stat_is_what_the_kernel_wrote(
    sums: Seq<char>,
    cpus: Seq<Seq<char>>,
    others: Seq<Row>,
    b: int,
    btime: u64,
    uptime: i64,
    c: Civil,
)
    requires
        are_lines(stat_rows(sums, cpus, others)),
        forall|i: int| 0 <= i < others.len() ==> !begins((#[trigger] others[i]).line(), "cpu"@),
        0 <= b < others.len(),
        others[b].label == "btime "@,
        others[b].value == decimal(btime as nat),
        forall|i: int| 0 <= i < b ==> !begins((#[trigger] others[i]).line(), "btime "@),
        btime <= i64::MAX,
        c.valid(),
        c.epoch_seconds() == btime + uptime,
        -262143 <= c.year <= 262142,
        cpus.len() <= u32::MAX,
    ensures
        cpus.len() > 0 ==> (read_stat_of(
            Ok(table(stat_rows(sums, cpus, others))),
            uptime,
        ) matches Ok((count, at)) && count == cpus.len() && at == c.rfc3339()),
        cpus.len() == 0 ==> read_stat_of(Ok(table(stat_rows(sums, cpus, others))), uptime) == Err::<
            (u32, Seq<char>),
            _,
        >(FaultView::Malformed { path: "/proc/stat"@, what: "no per-CPU lines"@ }),
{
    reveal_strlit("cpu");
    reveal_strlit("cpu ");
    reveal_strlit("btime ");
    let rows = stat_rows(sums, cpus, others);
    let text = trim_of(table(rows));
    let lines = row_lines(rows);
    lemma_table_trimmed(rows);
    let first = seq![("cpu "@ + sums)];
    let mid = Seq::new(cpus.len(), |i: int| "cpu"@ + decimal(i as nat) + cpus[i]);
    let rest = row_lines(others);
    assert(lines =~= first + mid + rest);
    lemma_cpu_lines_concat(first + mid, rest);
    lemma_cpu_lines_concat(first, mid);
    law_cpu_lines(sums);
    assert(!is_cpu_line(first[0]));
    lemma_all_or_none(first);
    assert forall|i: int| 0 <= i < mid.len() implies is_cpu_line(#[trigger] mid[i]) by {
        let d = decimal(i as nat);
        lemma_decimal(i as nat);
        assert(is_digit(d[0]));
        law_cpu_lines(d + cpus[i]);
        assert(mid[i] =~= "cpu"@ + (d + cpus[i]));
    }
    lemma_all_or_none(mid);
    assert forall|i: int| 0 <= i < rest.len() implies !is_cpu_line(#[trigger] rest[i]) by {
        assert(rest[i] == others[i].line());
    }
    lemma_all_or_none(rest);
    assert(cpu_lines(lines_of(text)) == cpus.len());
    let k = 1 + cpus.len() + b;
    assert(rows[k] == others[b]);
    assert forall|j: int| 0 <= j < k implies !begins((#[trigger] rows[j]).line(), "btime "@) by {
        if j > cpus.len() {
            assert(rows[j] == others[j - 1 - cpus.len()]);
        } else {
            let line = rows[j].line();
            assert(line[0] == 'c');
            if begins(line, "btime "@) {
                assert(line.take(6)[0] == 'b');
            }
        }
    }
    law_boot_time_is_on_its_line(rows, k, btime, Seq::empty());
    assert(decimal(btime as nat) + Seq::<char>::empty() =~= decimal(btime as nat));
    law_the_clock_is_boot_time_plus_uptime(text, uptime, c);
}

/// The health of a machine is what its files say, each figure as it stands: none
/// depends on another, and the target is echoed. Where a file is at fault, its fault
/// is the answer, the first of the four in the order in which they are read.
pub proof fn law_health_is_what_the_files_say(
    target: Seq<char>,
    uptime: Result<UptimeView, FaultView>,
    stat: Result<(u32, Seq<char>), FaultView>,
    load: Result<LoadView, FaultView>,
    memory: Result<MemoryHealth, FaultView>,
    pressure: Option<PressureSetView>,
)
    ensures
        ({
            let answer = system_health_of(target, uptime, stat, load, memory, pressure);
            &&& uptime matches Err(fault) ==> answer == Err::<SystemHealthView, _>(fault)
            &&& uptime is Ok ==> (stat matches Err(fault) ==> answer == Err::<SystemHealthView, _>(
                fault,
            ))
            &&& uptime is Ok && stat is Ok ==> (load matches Err(fault) ==> answer == Err::<
                SystemHealthView,
                _,
            >(fault))
            &&& uptime is Ok && stat is Ok && load is Ok ==> (memory matches Err(fault) ==> answer
                == Err::<SystemHealthView, _>(fault))
            &&& uptime is Ok && stat is Ok && load is Ok && memory is Ok ==> (answer matches Ok(h) && {
                let up = uptime->Ok_0;
                let l = load->Ok_0;
                &&& h.target == target
                &&& h.collected_at == (stat->Ok_0).1
                &&& h.uptime_seconds == up.seconds
                &&& h.cpu.idle_seconds == up.idle_seconds
                &&& h.cpu.count == (stat->Ok_0).0
                &&& h.cpu.load_1m == l.load_1m
                &&& h.cpu.load_5m == l.load_5m
                &&& h.cpu.load_15m == l.load_15m
                &&& h.cpu.runnable_tasks == l.runnable_tasks
                &&& h.cpu.total_tasks == l.total_tasks
                &&& h.memory == memory->Ok_0
                &&& h.pressure == pressure
            })
        }),
{
}

/// On a machine whose files are as the kernel writes them, the CPU block of its
/// health says what was written, whatever the figures: the load and the tasks of
/// `/proc/loadavg`, the idle time of `/proc/uptime` and the CPUs of `/proc/stat`.
pub proof fn law_cpu_demand_is_what_the_kernel_wrote(
    target: Seq<char>,
    up: UptimeView,
    stat: (u32, Seq<char>),
    load: LoadView,
    last_pid: u32,
    memory: MemoryHealth,
    pressure: Option<PressureSetView>,
)
    requires
        is_float(up.seconds) && is_float(up.idle_seconds),
        is_float(load.load_1m) && is_float(load.load_5m) && is_float(load.load_15m),
    ensures
        system_health_of(
            target,
            read_uptime_of(Ok(up.seconds + seq![' '] + up.idle_seconds + seq!['\n'])),
            Ok(stat),
            read_load_of(
                Ok(
                    load.load_1m + seq![' '] + (load.load_5m + seq![' '] + (load.load_15m + seq![' ']
                        + (decimal(load.runnable_tasks as nat) + seq!['/'] + decimal(
                        load.total_tasks as nat,
                    ) + seq![' '] + decimal(last_pid as nat)))) + seq!['\n'],
                ),
            ),
            Ok(memory),
            pressure,
        ) matches Ok(h) && {
            &&& h.uptime_seconds == up.seconds
            &&& h.cpu == CpuHealthView {
                count: stat.0,
                load_1m: load.load_1m,
                load_5m: load.load_5m,
                load_15m: load.load_15m,
                idle_seconds: up.idle_seconds,
                runnable_tasks: load.runnable_tasks,
                total_tasks: load.total_tasks,
            }
            &&& h.memory == memory
            &&& h.pressure == pressure
        },
{
    law_uptime_reads_back(up.seconds, up.idle_seconds);
    law_load_reads_back(load, last_pid);
}

/// Each figure of `/proc/uptime` must be there and denote a value: the first that
/// does not is the one that is named, and a failure to read the file is the answer.
pub proof fn law_uptime_needs_both_figures(text: Seq<char>, detail: Seq<char>)
    ensures
        words_of(text).len() < 1 || !is_float(words_of(text)[0]) ==> uptime_of(text) == Err::<
            UptimeView,
            _,
        >(FaultView::Malformed { path: "/proc/uptime"@, what: "uptime"@ }),
        words_of(text).len() >= 1 && is_float(words_of(text)[0]) && (words_of(text).len() < 2
            || !is_float(words_of(text)[1])) ==> uptime_of(text) == Err::<UptimeView, _>(
            FaultView::Malformed { path: "/proc/uptime"@, what: "idle time"@ },
        ),
        words_of(text).len() >= 2 && is_float(words_of(text)[0]) && is_float(words_of(text)[1])
            ==> uptime_of(text) == Ok::<_, FaultView>(
            UptimeView { seconds: words_of(text)[0], idle_seconds: words_of(text)[1] },
        ),
        read_uptime_of(Err(detail)) == Err::<UptimeView, _>(
            FaultView::Unreadable { path: "/proc/uptime"@, detail },
        ),
        read_uptime_of(Ok(text)) == uptime_of(trim_of(text)),
{
}

/// Each figure of `/proc/loadavg` must be there and denote a value: the first that
/// does not is the one that is named, and a failure to read the file is the answer.
pub proof fn law_load_needs_every_figure(text: Seq<char>, detail: Seq<char>)
    ensures
        ({
            let f = words_of(text);
            let tasks = split_of(
                if f.len() >= 4 {
                    f[3]
                } else {
                    Seq::empty()
                },
                '/',
            );
            let is_load = |i: int| f.len() > i && is_float(f[i]);
            let is_count = |i: int| tasks.len() > i && u32_of(tasks[i]) is Some;
            let missing = |what: Seq<char>|
                Err::<LoadView, _>(FaultView::Malformed { path: "/proc/loadavg"@, what });
            &&& !is_load(0) ==> load_of(text) == missing("1-minute load"@)
            &&& is_load(0) && !is_load(1) ==> load_of(text) == missing("5-minute load"@)
            &&& is_load(0) && is_load(1) && !is_load(2) ==> load_of(text) == missing(
                "15-minute load"@,
            )
            &&& is_load(0) && is_load(1) && is_load(2) && !is_count(0) ==> load_of(text) == missing(
                "runnable tasks"@,
            )
            &&& is_load(0) && is_load(1) && is_load(2) && is_count(0) && !is_count(1) ==> load_of(
                text,
            ) == missing("total tasks"@)
            &&& is_load(0) && is_load(1) && is_load(2) && is_count(0) && is_count(1) ==> load_of(
                text,
            ) == Ok::<_, FaultView>(
                LoadView {
                    load_1m: f[0],
                    load_5m: f[1],
                    load_15m: f[2],
                    runnable_tasks: u32_of(tasks[0])->0,
                    total_tasks: u32_of(tasks[1])->0,
                },
            )
        }),
        read_load_of(Err(detail)) == Err::<LoadView, _>(
            FaultView::Unreadable { path: "/proc/loadavg"@, detail },
        ),
        read_load_of(Ok(text)) == load_of(trim_of(text)),
        read_memory_of(Err(detail)) == Err::<MemoryHealth, _>(
            FaultView::Unreadable { path: "/proc/meminfo"@, detail },
        ),
        read_memory_of(Ok(text)) == memory_of(trim_of(text)),
{
}

/// A failure to read `/proc/stat` is the answer.
pub proof fn law_stat_must_be_readable(uptime: i64, detail: Seq<char>)
    ensures
        read_stat_of(Err(detail), uptime) == Err::<(u32, Seq<char>), _>(
            FaultView::Unreadable { path: "/proc/stat"@, detail },
        ),
{
}

/// Each resource of the pressure block is what the kernel wrote into the file of
/// that resource, and no block is there exactly where no file is.
pub proof fn law_each_resource_has_its_file(
    cpu: (Seq<char>, Seq<char>, Seq<char>, u64),
    memory: (Seq<char>, Seq<char>, Seq<char>, u64),
    memory_full: (Seq<char>, Seq<char>, Seq<char>, u64),
    io: (Seq<char>, Seq<char>, Seq<char>, u64),
    io_full: (Seq<char>, Seq<char>, Seq<char>, u64),
)
    requires
        is_float(cpu.0) && is_float(cpu.1) && is_float(cpu.2),
        is_float(memory.0) && is_float(memory.1) && is_float(memory.2),
        is_float(memory_full.0) && is_float(memory_full.1) && is_float(memory_full.2),
        is_float(io.0) && is_float(io.1) && is_float(io.2),
        is_float(io_full.0) && is_float(io_full.1) && is_float(io_full.2),
    ensures
        ({
            let c = stall_line("some"@, cpu) + seq!['\n'] + (stall_line("full"@, cpu) + seq!['\n']);
            let m = stall_line("some"@, memory) + seq!['\n'] + (stall_line("full"@, memory_full)
                + seq!['\n']);
            let i = stall_line("some"@, io) + seq!['\n'] + (stall_line("full"@, io_full)
                + seq!['\n']);
            let of_cpu = CpuPressureView {
                some_avg10: cpu.0,
                some_avg60: cpu.1,
                some_avg300: cpu.2,
                some_total_us: cpu.3,
            };
            let of_memory = PressureView {
                some_avg10: memory.0,
                full_avg10: memory_full.0,
                some_avg60: memory.1,
                full_avg60: memory_full.1,
                some_avg300: memory.2,
                full_avg300: memory_full.2,
                some_total_us: memory.3,
                full_total_us: memory_full.3,
            };
            let of_io = PressureView {
                some_avg10: io.0,
                full_avg10: io_full.0,
                some_avg60: io.1,
                full_avg60: io_full.1,
                some_avg300: io.2,
                full_avg300: io_full.2,
                some_total_us: io.3,
                full_total_us: io_full.3,
            };
            &&& pressure_set_of(Some(c), Some(m), Some(i)) == Some(
                PressureSetView { cpu: Some(of_cpu), memory: Some(of_memory), io: Some(of_io) },
            )
            &&& pressure_set_of(Some(c), None, None) == Some(
                PressureSetView { cpu: Some(of_cpu), memory: None, io: None },
            )
            &&& pressure_set_of(None, Some(m), None) == Some(
                PressureSetView { cpu: None, memory: Some(of_memory), io: None },
            )
            &&& pressure_set_of(None, None, Some(i)) == Some(
                PressureSetView { cpu: None, memory: None, io: Some(of_io) },
            )
            &&& pressure_set_of(None, None, None) is None
        }),
{
    law_pressure_reads_back(cpu, cpu);
    law_pressure_reads_back(memory, memory_full);
    law_pressure_reads_back(io, io_full);
}

/// The operator is told of exactly the files that are there and do not parse, each by
/// its own path and once.
pub proof fn law_anomalies_are_the_files_that_do_not_parse(
    cpu: Option<Seq<char>>,
    memory: Option<Seq<char>>,
    io: Option<Seq<char>>,
)
    ensures
        ({
            let of_cpu = cpu matches Some(t) && cpu_pressure_of(t) is None;
            let of_memory = memory matches Some(t) && pressure_of(t) is None;
            let of_io = io matches Some(t) && pressure_of(t) is None;
            let none = Seq::<Seq<char>>::empty();
            anomalies_of(cpu, memory, io) == (if of_cpu {
                seq!["ops-mcp: unexpected layout in "@ + "/proc/pressure/cpu"@ + "; omitting it"@]
            } else {
                none
            }) + (if of_memory {
                seq![
                    "ops-mcp: unexpected layout in "@ + "/proc/pressure/memory"@ + "; omitting it"@,
                ]
            } else {
                none
            }) + (if of_io {
                seq!["ops-mcp: unexpected layout in "@ + "/proc/pressure/io"@ + "; omitting it"@]
            } else {
                none
            })
        }),
{
}

/// Health is shown with its own figures, each under its own name.
pub proof fn law_health_shows_its_figures(
    h: SystemHealth,
    up: Uptime,
    load: Load,
    set: PressureSet,
    text: String,
)
    ensures
        h@.target == h.target@,
        h@.collected_at == h.collected_at@,
        h@.uptime_seconds == h.uptime_seconds@,
        h@.cpu.count == h.cpu.count,
        h@.cpu.load_1m == h.cpu.load_1m@,
        h@.cpu.load_5m == h.cpu.load_5m@,
        h@.cpu.load_15m == h.cpu.load_15m@,
        h@.cpu.idle_seconds == h.cpu.idle_seconds@,
        h@.cpu.runnable_tasks == h.cpu.runnable_tasks,
        h@.cpu.total_tasks == h.cpu.total_tasks,
        h@.memory == h.memory,
        h.memory@ == h.memory,
        h.pressure is None ==> h@.pressure is None,
        h.pressure matches Some(p) ==> h@.pressure == Some(p@),
        up@.seconds == up.seconds@,
        up@.idle_seconds == up.idle_seconds@,
        load@.load_1m == load.load_1m@,
        load@.load_5m == load.load_5m@,
        load@.load_15m == load.load_15m@,
        load@.runnable_tasks == load.runnable_tasks,
        load@.total_tasks == load.total_tasks,
        set.cpu is None ==> set@.cpu is None,
        set.cpu matches Some(p) ==> set@.cpu == Some(p@),
        set.memory is None ==> set@.memory is None,
        set.memory matches Some(p) ==> set@.memory == Some(p@),
        set.io is None ==> set@.io is None,
        set.io matches Some(p) ==> set@.io == Some(p@),
        optional(Some(text)) == Some(text@),
        optional(None) is None,
{
}

/// Each figure of memory is the field of its own name, whatever the figures are.
pub proof fn law_memory_figures_are_by_their_fields(meminfo: Seq<char>)
    requires
        meminfo_bytes_of(meminfo, "MemTotal"@) is Some,
        meminfo_bytes_of(meminfo, "MemAvailable"@) is Some,
        meminfo_bytes_of(meminfo, "SwapTotal"@) is Some,
        meminfo_bytes_of(meminfo, "SwapFree"@) is Some,
        meminfo_bytes_of(meminfo, "Cached"@) is Some,
        meminfo_bytes_of(meminfo, "Dirty"@) is Some,
        meminfo_bytes_of(meminfo, "SUnreclaim"@) is Some,
    ensures
        memory_of(meminfo) matches Ok(m) && {
            let swap_total = meminfo_bytes_of(meminfo, "SwapTotal"@)->0;
            let swap_free = meminfo_bytes_of(meminfo, "SwapFree"@)->0;
            &&& m.total_bytes == meminfo_bytes_of(meminfo, "MemTotal"@)->0
            &&& m.available_bytes == meminfo_bytes_of(meminfo, "MemAvailable"@)->0
            &&& m.cached_bytes == meminfo_bytes_of(meminfo, "Cached"@)->0
            &&& m.dirty_bytes == meminfo_bytes_of(meminfo, "Dirty"@)->0
            &&& m.kernel_unreclaimable_bytes == meminfo_bytes_of(meminfo, "SUnreclaim"@)->0
            &&& m.swap_total_bytes == swap_total
            &&& swap_free <= swap_total ==> m.swap_used_bytes == swap_total - swap_free
            &&& swap_free > swap_total ==> m.swap_used_bytes == 0
            &&& m.total_bytes > 0 ==> m.available_percent == Some(
                Share { part: m.available_bytes, whole: m.total_bytes },
            )
            &&& m.total_bytes == 0 ==> m.available_percent is None
        },
{
}

/// `/proc/stat` gives as many CPUs as it has lines for, and the time of the reading,
/// or what is wrong with the clock; no CPU at all is what is wrong first.
pub proof fn law_stat_gives_the_cpus_and_the_clock(text: Seq<char>, uptime: i64)
    requires
        cpu_lines(lines_of(text)) <= u32::MAX,
    ensures
        cpu_lines(lines_of(text)) == 0 ==> stat_of(text, uptime) == Err::<(u32, Seq<char>), _>(
            FaultView::Malformed { path: "/proc/stat"@, what: "no per-CPU lines"@ },
        ),
        cpu_lines(lines_of(text)) > 0 ==> (collected_at_of(text, uptime) matches Ok(at) ==> (stat_of(
            text,
            uptime,
        ) matches Ok((count, dated)) && count == cpu_lines(lines_of(text)) && dated == at)),
        cpu_lines(lines_of(text)) > 0 ==> (collected_at_of(text, uptime) matches Err(fault)
            ==> stat_of(text, uptime) == Err::<(u32, Seq<char>), _>(fault)),
{
}

/// Reading `/proc/stat` is reading what it holds, whitespace at its ends aside.
pub proof fn law_stat_is_read_trimmed(content: Seq<char>, uptime: i64)
    ensures
        read_stat_of(Ok(content), uptime) == stat_of(trim_of(content), uptime),
{
}

} // verus!
