use ops_mcp::fault::{Fault, FaultKind};
use ops_mcp::number::FloatText;
use ops_mcp::proc::{
    count_cpus, dir_mtime, field, meminfo_bytes, parse_error, psi_avg, psi_token, psi_total, read,
    read_dir, read_optional, stat_btime, ReadFailure,
};

const STAT: &str = "cpu  100 2 3 4\ncpu0 50 1 1 2\ncpu1 50 1 2 2\nintr 5\nctxt 9\nbtime 1756900000\nprocesses 77\n";
const MEMINFO: &str =
    "MemTotal:        8192000 kB\nMemFree:          100 kB\nMemAvailable:    4096000 kB\nHugePages_Total:       0\n";
const PSI: &str = "some avg10=1.50 avg60=0.75 avg300=0.10 total=1714525\nfull avg10=0.00 avg60=0.01 avg300=0.02 total=99\n";

fn gone() -> ReadFailure {
    ReadFailure {
        not_found: true,
        detail: "No such file or directory".to_owned(),
    }
}

fn refused() -> ReadFailure {
    ReadFailure {
        not_found: false,
        detail: "Permission denied".to_owned(),
    }
}

#[test]
fn counts_only_the_per_cpu_lines() {
    assert_eq!(count_cpus(STAT), 2);
    assert_eq!(count_cpus("cpu  1 2 3\n"), 0);
    assert_eq!(count_cpus("cpu0\ncpu1\ncpufreq 1\n cpu2\ncpu10 4"), 3);
    assert_eq!(count_cpus(""), 0);
}

#[test]
fn finds_the_boot_time() {
    assert_eq!(stat_btime(STAT), Some(1756900000));
    assert_eq!(stat_btime("btime 5 6\nbtime 7\n"), Some(5));
    assert_eq!(stat_btime("btime\n"), None);
    assert_eq!(stat_btime("btime x\nbtime 7\n"), None);
    assert_eq!(stat_btime("btimes 7\n"), None);
}

#[test]
fn memory_is_converted_to_bytes() {
    assert_eq!(meminfo_bytes(MEMINFO, "MemTotal"), Some(8192000 * 1024));
    assert_eq!(meminfo_bytes(MEMINFO, "MemAvailable"), Some(4096000 * 1024));
    assert_eq!(meminfo_bytes(MEMINFO, "HugePages_Total"), Some(0));
    assert_eq!(meminfo_bytes(MEMINFO, "Mem"), None);
    assert_eq!(meminfo_bytes(MEMINFO, "SwapTotal"), None);
    assert_eq!(meminfo_bytes("A: 18014398509481983 kB", "A"), Some(18446744073709550592));
    assert_eq!(meminfo_bytes("A: 18014398509481984 kB", "A"), None);
    assert_eq!(meminfo_bytes("A:\nA: 1 kB", "A"), None);
}

#[test]
fn pressure_tokens_come_from_the_selected_line() {
    assert_eq!(psi_token(PSI, "some ", "avg10="), Some("1.50"));
    assert_eq!(psi_token(PSI, "full ", "avg10="), Some("0.00"));
    assert_eq!(psi_token(PSI, "full ", "avg600="), None);
    assert_eq!(psi_token(PSI, "none ", "avg10="), None);
    assert_eq!(psi_total(PSI, "some "), Some(1714525));
    assert_eq!(psi_total(PSI, "full "), Some(99));
    assert_eq!(psi_total("some total=x\n", "some "), None);
    let avg = psi_avg(PSI, "some ", "avg60=").expect("an average");
    assert_eq!(avg.text(), "0.75");
    assert!(psi_avg("some avg10=high\n", "some ", "avg10=").is_none());
}

#[test]
fn a_required_file_is_trimmed() {
    let text = read("/proc/uptime", Ok(" 12.5 40.0\n".to_owned()));
    assert_eq!(text.ok(), Some("12.5 40.0".to_owned()));
}

#[test]
fn a_required_file_that_cannot_be_read_is_a_flat_fault() {
    for failure in [gone(), refused()] {
        let detail = failure.detail.clone();
        let fault = read("/proc/uptime", Err(failure)).err().expect("a fault");
        assert_eq!(fault.message(), "failed to read system information");
        assert_eq!(fault.kind(), FaultKind::InternalError);
        assert_eq!(
            fault.log_line(),
            Some(format!("ops-mcp: failed to read /proc/uptime: {detail}"))
        );
    }
}

#[test]
fn an_absent_optional_file_is_no_fault() {
    let (text, fault) = read_optional("/proc/pressure/cpu", Ok(" kept \n".to_owned()));
    assert_eq!(text, Some(" kept \n".to_owned()));
    assert!(fault.is_none());
    let (text, fault) = read_optional("/proc/pressure/cpu", Err(gone()));
    assert!(text.is_none() && fault.is_none());
    let (text, fault) = read_optional("/proc/pressure/cpu", Err(refused()));
    assert!(text.is_none());
    assert_eq!(
        fault.and_then(|f| f.log_line()),
        Some("ops-mcp: failed to read /proc/pressure/cpu: Permission denied".to_owned())
    );
}

#[test]
fn a_field_is_parsed_or_named() {
    let seven: Result<u32, Fault> = field(Some("7"), "/proc/loadavg", "total tasks");
    assert_eq!(seven.ok(), Some(7));
    let half: Result<FloatText, Fault> = field(Some("0.5"), "/proc/loadavg", "1-minute load");
    assert_eq!(half.ok().map(|f| f.text().to_owned()), Some("0.5".to_owned()));
    for value in [None, Some("x"), Some("")] {
        let r: Result<u64, Fault> = field(value, "/proc/loadavg", "total tasks");
        let fault = r.err().expect("a fault");
        assert_eq!(fault.message(), "failed to read system information");
        assert_eq!(
            fault.log_line(),
            Some("ops-mcp: could not parse total tasks from /proc/loadavg".to_owned())
        );
    }
}

#[test]
fn a_parse_error_tells_the_operator_what_and_where() {
    let fault = parse_error("/proc/stat", "btime");
    assert_eq!(
        fault.log_line(),
        Some("ops-mcp: could not parse btime from /proc/stat".to_owned())
    );
    assert_eq!(fault.kind(), FaultKind::InternalError);
}

#[test]
fn cpus_are_counted_line_by_line() {
    let (a, b) = ("cpu0 1\ncpu1 1\n", "intr 3\ncpu2 1\n");
    assert_eq!(count_cpus(&format!("{a}{b}")), count_cpus(a) + count_cpus(b));
}

#[test]
fn figures_are_read_back_as_they_were_written() {
    for n in [0, 1, 9, 10, 1024, 18014398509481983] {
        let meminfo = format!("MemFree: 7 kB\nMemTotal:    {n} kB\nMemTotal: 1 kB\n");
        assert_eq!(meminfo_bytes(&meminfo, "MemTotal"), Some(n * 1024));
        assert_eq!(stat_btime(&format!("cpu  1\nbtime {n}\nbtime 1\n")), Some(n));
        let psi = format!("some avg10=0.00 total={n}\nfull avg10=1.00 total=3\n");
        assert_eq!(psi_total(&psi, "some "), Some(n));
        assert_eq!(psi_total(&psi, "full "), Some(3));
    }
}

const REFUSED: [&str; 8] = [
    "/proc/1/environ",
    "/proc/1/cmdline",
    "/proc/1/status",
    "/proc/self/comm",
    "/sys/fs/cgroup/a.slice/../cpu.stat",
    "/sys/fs/cgroup/a.slice/cgroup.kill",
    "/etc/shadow",
    "/tmp/x",
];

#[test]
fn a_refused_read_is_a_fault_and_none_of_the_content() {
    for path in REFUSED {
        for outcome in [Ok("PASSWORD=hunter2\n".to_owned()), Err(gone()), Err(refused())] {
            let fault = read(path, outcome).err().expect("refused");
            assert_eq!(fault.message(), "failed to read system information");
            assert_eq!(fault.kind(), FaultKind::InternalError);
            assert_eq!(
                fault.log_line(),
                Some(format!("ops-mcp: failed to read {path}: not a file this server reads"))
            );
        }
    }
}

#[test]
fn a_refused_optional_read_is_logged_and_none_of_the_content() {
    for path in REFUSED {
        for outcome in [Ok("PASSWORD=hunter2\n".to_owned()), Err(gone()), Err(refused())] {
            let (text, fault) = read_optional(path, outcome);
            assert_eq!(text, None);
            assert_eq!(
                fault.and_then(|f| f.log_line()),
                Some(format!("ops-mcp: failed to read {path}: not a file this server reads"))
            );
        }
    }
    let (name, fault) = read_optional("/proc/1/comm", Ok("init\n".to_owned()));
    assert_eq!(name, Some("init\n".to_owned()));
    assert!(fault.is_none());
}

#[test]
fn a_listing_gives_the_paths_of_the_subdirectories() {
    let names = || Some(vec!["a.slice".to_owned(), "b".to_owned()]);
    assert_eq!(
        read_dir("/sys/fs/cgroup", names()),
        Some(vec![
            "/sys/fs/cgroup/a.slice".to_owned(),
            "/sys/fs/cgroup/b".to_owned()
        ])
    );
    assert_eq!(read_dir("/sys/fs/cgroup", None), None);
    assert_eq!(read_dir("/sys/fs/cgroup", Some(Vec::new())), Some(Vec::new()));
    for dir in ["/proc", "/", "/sys/fs", "/sys/fs/cgroup/..", "/home"] {
        assert_eq!(read_dir(dir, names()), None, "should not list {dir}");
    }
}

#[test]
fn only_a_directory_that_may_be_listed_is_dated() {
    assert_eq!(dir_mtime("/sys/fs/cgroup/docker", Some(5)), Some(5));
    assert_eq!(dir_mtime("/sys/fs/cgroup/docker", None), None);
    assert_eq!(dir_mtime("/home", Some(5)), None);
}
