use ops_mcp::fault::Fault;
use ops_mcp::pressure::{parse_cpu_pressure, parse_pressure};
use ops_mcp::proc::ReadFailure;
use ops_mcp::system_health::{
    anomalies, collect, percent_of, read_pressure, read_uptime, PressureTexts, Share, SystemHealth,
};
use ops_mcp::system_info;

const STAT: &str = "cpu  9 9\ncpu0 1\ncpu1 1\ncpu2 1\ncpu3 1\nbtime 1000000000\n";
const LOADAVG: &str = "1.50 0.75 0.25 3/812 40412\n";
const MEMINFO: &str = "MemTotal:  8192 kB\nMemFree: 1 kB\nMemAvailable: 2048 kB\nCached: 512 kB\n\
                       Dirty: 4 kB\nSwapTotal: 1024 kB\nSwapFree: 1000 kB\nSUnreclaim: 64 kB\n";
const PSI: &str = "some avg10=1.50 avg60=0.75 avg300=0.10 total=1714525\n\
                   full avg10=0.25 avg60=0.01 avg300=0.02 total=99\n";

fn gone() -> Result<String, ReadFailure> {
    Err(ReadFailure {
        not_found: true,
        detail: "gone".to_owned(),
    })
}

fn texts(cpu: Option<&str>, memory: Option<&str>, io: Option<&str>) -> PressureTexts {
    PressureTexts {
        cpu: cpu.map(str::to_owned),
        memory: memory.map(str::to_owned),
        io: io.map(str::to_owned),
    }
}

fn health(
    uptime: &str,
    stat: &str,
    loadavg: &str,
    meminfo: &str,
    pressure: &PressureTexts,
) -> Result<SystemHealth, Fault> {
    collect(
        "local".to_owned(),
        read_uptime(Ok(uptime.to_owned())),
        40,
        Ok(stat.to_owned()),
        Ok(loadavg.to_owned()),
        Ok(meminfo.to_owned()),
        pressure,
    )
}

fn logged(r: Result<SystemHealth, Fault>) -> String {
    r.err().and_then(|f| f.log_line()).expect("a logged fault")
}

#[test]
fn health_carries_what_the_files_say() {
    let pressure = texts(Some(PSI), Some(PSI), None);
    let h = health("40.50 150.25\n", STAT, LOADAVG, MEMINFO, &pressure).ok().expect("health");
    assert_eq!(h.target, "local");
    assert_eq!(h.collected_at, "2001-09-09T01:47:20Z");
    assert_eq!(h.uptime_seconds.text(), "40.50");
    assert_eq!(h.cpu.count, 4);
    assert_eq!(h.cpu.load_1m.text(), "1.50");
    assert_eq!(h.cpu.load_5m.text(), "0.75");
    assert_eq!(h.cpu.load_15m.text(), "0.25");
    assert_eq!(h.cpu.idle_seconds.text(), "150.25");
    assert_eq!((h.cpu.runnable_tasks, h.cpu.total_tasks), (3, 812));
    assert_eq!(h.memory.total_bytes, 8192 * 1024);
    assert_eq!(h.memory.available_bytes, 2048 * 1024);
    assert_eq!(
        h.memory.available_percent,
        Some(Share {
            part: 2048 * 1024,
            whole: 8192 * 1024
        })
    );
    assert_eq!(h.memory.cached_bytes, 512 * 1024);
    assert_eq!(h.memory.dirty_bytes, 4 * 1024);
    assert_eq!(h.memory.swap_total_bytes, 1024 * 1024);
    assert_eq!(h.memory.swap_used_bytes, 24 * 1024);
    assert_eq!(h.memory.kernel_unreclaimable_bytes, 64 * 1024);
    let p = h.pressure.expect("pressure");
    let cpu = p.cpu.expect("cpu pressure");
    assert_eq!((cpu.some_avg10.text(), cpu.some_total_us), ("1.50", 1714525));
    let memory = p.memory.expect("memory pressure");
    assert_eq!((memory.full_avg10.text(), memory.full_total_us), ("0.25", 99));
    assert!(p.io.is_none());
}

#[test]
fn the_first_file_at_fault_is_named() {
    let none = texts(None, None, None);
    let failed = collect(
        "local".to_owned(),
        read_uptime(gone()),
        0,
        gone(),
        gone(),
        gone(),
        &none,
    );
    assert_eq!(logged(failed), "ops-mcp: failed to read /proc/uptime: gone");
    for (uptime, what) in [("", "uptime"), ("x 1", "uptime"), ("1.0", "idle time"), ("1.0 x", "idle time")] {
        assert_eq!(
            logged(health(uptime, "", "", "", &none)),
            format!("ops-mcp: could not parse {what} from /proc/uptime")
        );
    }
    for (stat, what) in [
        ("", "no per-CPU lines"),
        ("cpu  1\nbtime 5\n", "no per-CPU lines"),
        ("cpu0 1\n", "btime"),
        ("cpu0 1\nbtime 9223372036854775807\n", "boot time out of range"),
        ("cpu0 1\nbtime 9000000000000\n", "boot time out of range"),
    ] {
        assert_eq!(
            logged(health("1 1", stat, "", "", &none)),
            format!("ops-mcp: could not parse {what} from /proc/stat")
        );
    }
    for (loadavg, what) in [
        ("", "1-minute load"),
        ("1", "5-minute load"),
        ("1 2", "15-minute load"),
        ("1 2 3", "runnable tasks"),
        ("1 2 3 /7", "runnable tasks"),
        ("1 2 3 4", "total tasks"),
        ("1 2 3 4/x", "total tasks"),
        ("1 2 3 4/4294967296", "total tasks"),
    ] {
        assert_eq!(
            logged(health("1 1", STAT, loadavg, "", &none)),
            format!("ops-mcp: could not parse {what} from /proc/loadavg")
        );
    }
    for key in ["MemTotal", "MemAvailable", "SwapTotal", "SwapFree", "Cached", "Dirty", "SUnreclaim"] {
        let without = MEMINFO.replace(&format!("{key}:"), "Other:");
        assert_eq!(
            logged(health("1 1", STAT, LOADAVG, &without, &none)),
            format!("ops-mcp: could not parse {key} from /proc/meminfo")
        );
    }
    assert_eq!(
        logged(health("1 1", STAT, LOADAVG, "", &none)),
        "ops-mcp: could not parse MemTotal from /proc/meminfo"
    );
}

#[test]
fn a_machine_without_pressure_files_is_still_answered_for() {
    let h = health("1 1", STAT, LOADAVG, MEMINFO, &texts(None, None, None)).ok().expect("health");
    assert!(h.pressure.is_none());
    assert_eq!(h.cpu.count, 4);
}

#[test]
fn swap_in_use_never_goes_below_zero() {
    let odd = MEMINFO.replace("SwapFree: 1000", "SwapFree: 9000");
    let h = health("1 1", STAT, LOADAVG, &odd, &texts(None, None, None)).ok().expect("health");
    assert_eq!(h.memory.swap_used_bytes, 0);
}

#[test]
fn no_share_is_taken_of_nothing() {
    assert_eq!(percent_of(5, 0), None);
    assert_eq!(percent_of(5, 4), Some(Share { part: 5, whole: 4 }));
    assert_eq!(percent_of(0, 4), Some(Share { part: 0, whole: 4 }));
}

#[test]
fn resources_are_read_independently() {
    let set = read_pressure(&texts(Some("garbage"), Some(PSI), Some(""))).expect("one is there");
    assert!(set.cpu.is_none() && set.memory.is_some() && set.io.is_none());
    let set = read_pressure(&texts(Some(PSI), None, None)).expect("one is there");
    assert!(set.cpu.is_some() && set.memory.is_none() && set.io.is_none());
    assert!(read_pressure(&texts(None, Some("x"), None)).is_none());
}

#[test]
fn only_a_file_that_is_there_and_does_not_parse_is_an_anomaly() {
    assert!(anomalies(&texts(None, Some(PSI), None)).is_empty());
    assert_eq!(
        anomalies(&texts(Some("x"), Some(PSI), Some("some avg10=1\n"))),
        vec![
            "ops-mcp: unexpected layout in /proc/pressure/cpu; omitting it".to_owned(),
            "ops-mcp: unexpected layout in /proc/pressure/io; omitting it".to_owned(),
        ]
    );
}

#[test]
fn pressure_needs_every_figure() {
    let p = parse_pressure(PSI).expect("pressure");
    assert_eq!(p.some_avg10.text(), "1.50");
    assert_eq!(p.some_avg60.text(), "0.75");
    assert_eq!(p.some_avg300.text(), "0.10");
    assert_eq!(p.full_avg10.text(), "0.25");
    assert_eq!(p.full_avg60.text(), "0.01");
    assert_eq!(p.full_avg300.text(), "0.02");
    assert_eq!((p.some_total_us, p.full_total_us), (1714525, 99));
    let some = PSI.lines().next().expect("a line");
    assert!(parse_pressure(some).is_none());
    let cpu = parse_cpu_pressure(some).expect("cpu pressure");
    assert_eq!(cpu.some_avg300.text(), "0.10");
    assert_eq!(cpu.some_avg60.text(), "0.75");
    for missing in ["avg10=1.50 ", "avg60=0.75 ", "avg300=0.10 ", "total=1714525"] {
        assert!(parse_cpu_pressure(&some.replace(missing, "")).is_none());
        assert!(parse_pressure(&PSI.replace(missing, "")).is_none());
    }
}

#[test]
fn identity_echoes_the_target() {
    let info = system_info::collect(
        "local".to_owned(),
        Ok("box\n".to_owned()),
        Ok("6.1.0\n".to_owned()),
        "linux",
        "x86_64",
    )
    .ok()
    .expect("identity");
    assert_eq!(info.target, "local");
    assert_eq!(info.hostname, "box");
    assert_eq!(info.kernel_release, "6.1.0");
    assert_eq!((info.os, info.arch), ("linux", "x86_64"));
}

#[test]
fn identity_needs_both_files() {
    let line = |host, kernel| {
        system_info::collect("local".to_owned(), host, kernel, "linux", "x86_64")
            .err()
            .and_then(|f| f.log_line())
    };
    assert_eq!(
        line(gone(), gone()),
        Some("ops-mcp: failed to read /proc/sys/kernel/hostname: gone".to_owned())
    );
    assert_eq!(
        line(Ok("box".to_owned()), gone()),
        Some("ops-mcp: failed to read /proc/sys/kernel/osrelease: gone".to_owned())
    );
}
