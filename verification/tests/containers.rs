use ops_mcp::cgroup::Found;
use ops_mcp::clock::{collected_at, target_now, LAST_INSTANT};
use ops_mcp::container_health::{
    collect, cpu_health, memory_health, pids_health, pressure_set, select, uptime_seconds,
    CgroupTexts, CpuHealth, MemoryHealth, PidsHealth,
};
use ops_mcp::container_list;
use ops_mcp::fault::FaultKind;
use ops_mcp::identity::{comm_path, comm_paths, identify, process_names};
use ops_mcp::system_health::{PressureTexts, Share};

const CPU_STAT: &str = "usage_usec 300\nuser_usec 200\nsystem_usec 100\nnr_periods 5\nnr_throttled 2\nthrottled_usec 77\n";
const PSI: &str = "some avg10=1.50 avg60=0.75 avg300=0.10 total=1714525\nfull avg10=0.25 avg60=0.01 avg300=0.02 total=99\n";

fn found(id: &str, path: &str) -> Found {
    Found {
        id: id.to_owned(),
        runtime: "docker",
        path: path.to_owned(),
    }
}

fn nothing() -> CgroupTexts {
    CgroupTexts {
        cpu_stat: None,
        cpu_max: None,
        cpu_weight: None,
        memory_current: None,
        memory_max: None,
        memory_high: None,
        memory_swap_current: None,
        memory_events: None,
        pids_current: None,
        pids_max: None,
        pressure: PressureTexts {
            cpu: None,
            memory: None,
            io: None,
        },
    }
}

#[test]
fn cpu_use_with_and_without_a_quota() {
    let unlimited = CpuHealth {
        usage_usec: 300,
        user_usec: 200,
        system_usec: 100,
        quota_usec: None,
        period_usec: None,
        weight: Some(100),
        nr_periods: 5,
        nr_throttled: 2,
        throttled_usec: 77,
    };
    assert_eq!(
        cpu_health(Some(CPU_STAT), Some("max 100000\n"), Some("100\n")),
        Some(unlimited)
    );
    assert_eq!(
        cpu_health(Some(CPU_STAT), Some("50000 100000\n"), None),
        Some(CpuHealth {
            quota_usec: Some(50000),
            period_usec: Some(100000),
            weight: None,
            ..unlimited
        })
    );
    assert_eq!(
        cpu_health(Some("usage_usec 1\n"), None, None),
        Some(CpuHealth {
            usage_usec: 1,
            user_usec: 0,
            system_usec: 0,
            quota_usec: None,
            period_usec: None,
            weight: None,
            nr_periods: 0,
            nr_throttled: 0,
            throttled_usec: 0,
        })
    );
    assert_eq!(cpu_health(Some("user_usec 1\n"), None, None), None);
    assert_eq!(cpu_health(None, Some("max 100000"), Some("100")), None);
}

#[test]
fn memory_limits_are_reported_by_presence() {
    let events = "low 0\nhigh 3\nmax 7\noom 2\noom_kill 1\n";
    let limited = MemoryHealth {
        current_bytes: 500,
        limit_bytes: Some(1000),
        limit_used_percent: Some(Share {
            part: 500,
            whole: 1000,
        }),
        high_bytes: Some(900),
        swap_current_bytes: Some(4),
        limit_hits: 7,
        high_hits: 3,
        oom_kills: 1,
        oom_events: 2,
    };
    assert_eq!(
        memory_health(Some("500\n"), Some("1000\n"), Some("900"), Some("4"), Some(events)),
        Some(limited)
    );
    let unlimited = MemoryHealth {
        limit_bytes: None,
        limit_used_percent: None,
        high_bytes: None,
        swap_current_bytes: None,
        limit_hits: 0,
        high_hits: 0,
        oom_kills: 0,
        oom_events: 0,
        ..limited
    };
    assert_eq!(
        memory_health(Some("500"), Some("max\n"), Some("max\n"), None, None),
        Some(unlimited)
    );
    assert_eq!(memory_health(Some("500"), None, None, None, None), Some(unlimited));
    assert_eq!(
        memory_health(Some("500"), Some("0"), None, None, None),
        Some(MemoryHealth {
            limit_bytes: Some(0),
            ..unlimited
        })
    );
    assert_eq!(memory_health(Some("x"), Some("1000"), None, None, None), None);
    assert_eq!(memory_health(None, Some("1000"), None, None, Some(events)), None);
}

#[test]
fn process_limits_are_reported_by_presence() {
    assert_eq!(
        pids_health(Some("9\n"), Some("4096\n")),
        Some(PidsHealth {
            current: 9,
            limit: Some(4096)
        })
    );
    assert_eq!(
        pids_health(Some("9"), Some("max")),
        Some(PidsHealth {
            current: 9,
            limit: None
        })
    );
    assert_eq!(pids_health(None, Some("4096")), None);
    assert_eq!(pids_health(Some("many"), None), None);
}

#[test]
fn a_container_has_full_pressure_for_its_cpu() {
    let texts = PressureTexts {
        cpu: Some(PSI.to_owned()),
        memory: None,
        io: Some("bad".to_owned()),
    };
    let set = pressure_set(&texts).expect("one is there");
    let cpu = set.cpu.expect("cpu pressure");
    assert_eq!((cpu.full_avg10.text(), cpu.full_total_us), ("0.25", 99));
    assert!(set.memory.is_none() && set.io.is_none());
    assert!(pressure_set(&nothing().pressure).is_none());
}

#[test]
fn a_container_is_chosen_by_its_id() {
    let all = || vec![found("aaa", "/1"), found("bbb", "/2"), found("bbb", "/3")];
    let f = select(all(), "local", "bbb").ok().expect("it is there");
    assert_eq!((f.id.as_str(), f.path.as_str()), ("bbb", "/2"));
    let fault = select(all(), "local", "bb").err().expect("no such container");
    assert_eq!(fault.kind(), FaultKind::InvalidParams);
    assert_eq!(
        fault.message(),
        "no container \"bb\" on target \"local\"; call container_list for the containers that exist now"
    );
    assert!(select(Vec::new(), "local", "aaa").is_err());
}

#[test]
fn the_age_of_a_container_is_never_negative() {
    assert_eq!(uptime_seconds(100, 40), 60);
    assert_eq!(uptime_seconds(40, 40), 0);
    assert_eq!(uptime_seconds(40, 100), 0);
    assert_eq!(uptime_seconds(i64::MAX, 0), i64::MAX);
}

#[test]
fn health_of_a_container() {
    let mut files = nothing();
    files.cpu_stat = Some(CPU_STAT.to_owned());
    files.pids_current = Some("3".to_owned());
    let h = collect(
        "local".to_owned(),
        found("abc", "/x"),
        1_000_000_000,
        Some(999_999_990),
        (vec!["sh".to_owned()], 3),
        &files,
    )
    .ok()
    .expect("health");
    assert_eq!((h.target.as_str(), h.container.as_str(), h.runtime), ("local", "abc", "docker"));
    assert_eq!(h.collected_at, "2001-09-09T01:46:40Z");
    assert_eq!(h.uptime_seconds, Some(10));
    assert_eq!((h.processes, h.process_count), (vec!["sh".to_owned()], 3));
    assert_eq!(h.cpu.map(|c| c.usage_usec), Some(300));
    assert!(h.memory.is_none() && h.pressure.is_none());
    assert_eq!(h.pids.map(|p| p.current), Some(3));
}

#[test]
fn health_of_a_container_of_unknown_age() {
    let h = collect(
        "local".to_owned(),
        found("abc", "/x"),
        0,
        None,
        (Vec::new(), 0),
        &nothing(),
    )
    .ok()
    .expect("health");
    assert_eq!(h.uptime_seconds, None);
    assert_eq!(h.collected_at, "1970-01-01T00:00:00Z");
    assert!(h.cpu.is_none() && h.pids.is_none());
}

#[test]
fn a_clock_out_of_range_is_a_fault() {
    let r = collect(
        "local".to_owned(),
        found("abc", "/x"),
        LAST_INSTANT + 1,
        None,
        (Vec::new(), 0),
        &nothing(),
    );
    assert_eq!(
        r.err().and_then(|f| f.log_line()),
        Some("ops-mcp: could not parse boot time out of range from /proc/stat".to_owned())
    );
}

#[test]
fn names_are_distinct_trimmed_and_in_order() {
    let comms = vec![
        Some("sh\n".to_owned()),
        Some("postgres\n".to_owned()),
        None,
        Some("  \n".to_owned()),
        Some("sh\n".to_owned()),
        Some("Xorg\n".to_owned()),
    ];
    assert_eq!(process_names(&comms), vec!["Xorg", "postgres", "sh"]);
    let mut reversed = comms;
    reversed.reverse();
    assert_eq!(process_names(&reversed), vec!["Xorg", "postgres", "sh"]);
}

#[test]
fn every_process_counts_even_without_a_name() {
    let comms = vec![Some("sh\n".to_owned()), None, Some("sh\n".to_owned())];
    assert_eq!(identify(Some("1\n22\n333\n"), &comms), (vec!["sh".to_owned()], 3));
    assert_eq!(identify(Some(""), &Vec::new()), (Vec::new(), 0));
    assert_eq!(identify(None, &comms), (Vec::new(), 0));
    assert_eq!(comm_path("22"), "/proc/22/comm");
    assert_eq!(comm_paths("1\n22\n"), vec!["/proc/1/comm", "/proc/22/comm"]);
    assert!(comm_paths("\n").is_empty());
}

#[test]
fn the_list_keeps_the_order_and_hides_the_paths() {
    let list = container_list::collect(
        "local".to_owned(),
        "2001-09-09T01:46:40Z".to_owned(),
        vec![
            (found("aaa", "/1"), vec!["sh".to_owned()]),
            (found("bbb", "/2"), Vec::new()),
        ],
    );
    assert_eq!((list.target.as_str(), list.collected_at.as_str()), ("local", "2001-09-09T01:46:40Z"));
    assert_eq!(list.count, 2);
    let ids: Vec<&str> = list.containers.iter().map(|c| c.id.as_str()).collect();
    assert_eq!(ids, vec!["aaa", "bbb"]);
    assert_eq!(list.containers[0].processes, vec!["sh"]);
    assert_eq!(list.containers[1].runtime, "docker");
    let none = container_list::collect("local".to_owned(), String::new(), Vec::new());
    assert_eq!((none.count, none.containers.len()), (0, 0));
}

#[test]
fn each_listed_container_is_answered_for() {
    let all = || vec![found("aaa", "/1"), found("bbb", "/2"), found("ccc", "/3")];
    let names = |id: &str| vec![format!("init-{id}")];
    let pairs = all().into_iter().map(|f| {
        let n = names(&f.id);
        (f, n)
    });
    let stat = "btime 1000000000\n";
    let at = collected_at(stat, 40).ok().expect("a timestamp");
    let list = container_list::collect("local".to_owned(), at, pairs.collect());
    for c in list.containers {
        let f = select(all(), "local", &c.id).ok().expect("it is there");
        let now = target_now(stat, 40).ok().expect("an instant");
        let h = collect("local".to_owned(), f, now, None, (names(&c.id), 1), &nothing())
            .ok()
            .expect("health");
        assert_eq!((h.container, h.runtime, h.processes), (c.id, c.runtime, c.processes));
        assert_eq!(h.collected_at, list.collected_at);
    }
}
