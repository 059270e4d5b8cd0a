use ops_mcp::cgroup::file_in;
use ops_mcp::discovery::CGROUP_ROOT;
use ops_mcp::guard::{check, check_dir};
use ops_mcp::identity::comm_path;

const SCOPE: &str = "/sys/fs/cgroup/system.slice/docker-abcdef012345.scope";

#[test]
fn the_files_that_the_tools_read_are_readable() {
    for path in [
        "/proc/uptime",
        "/proc/stat",
        "/proc/loadavg",
        "/proc/meminfo",
        "/proc/pressure/cpu",
        "/proc/pressure/memory",
        "/proc/pressure/io",
        "/proc/sys/kernel/hostname",
        "/proc/sys/kernel/osrelease",
        "/proc/1/comm",
        "/proc/4194304/comm",
    ] {
        assert!(check(path), "should read {path}");
    }
    for name in [
        "cgroup.procs",
        "cpu.stat",
        "cpu.max",
        "cpu.weight",
        "cpu.pressure",
        "memory.current",
        "memory.max",
        "memory.high",
        "memory.swap.current",
        "memory.events",
        "memory.pressure",
        "pids.current",
        "pids.max",
        "io.pressure",
    ] {
        assert!(check(&file_in(SCOPE, name)), "should read {name}");
    }
}

#[test]
fn arguments_and_environment_are_never_readable() {
    for path in [
        "/proc/1/cmdline",
        "/proc/1/environ",
        "/proc/self/environ",
        "/proc/cmdline",
        "/sys/fs/cgroup/a.slice/cmdline",
        "/sys/fs/cgroup/a.slice/environ",
    ] {
        assert!(!check(path), "should not read {path}");
    }
}

#[test]
fn of_a_process_only_the_name_is_readable() {
    for name in ["status", "stat", "limits", "io", "maps", "fd/0", "task/1/comm", "comm/"] {
        let path = format!("/proc/1/{name}");
        assert!(!check(&path), "should not read {path}");
    }
    assert!(!check("/proc/self/comm"));
    assert!(!check("/proc//comm"));
    assert!(!check("/proc/1a/comm"));
    assert!(check(&comm_path("77")));
    assert!(!check(&comm_path("../1")));
    assert!(!check(&comm_path("")));
}

#[test]
fn detours_are_refused() {
    for path in [
        "/proc/../etc/passwd",
        "/proc/./uptime",
        "/proc//uptime",
        "//proc/uptime",
        "proc/uptime",
        "/proc/uptime/",
        "/sys/fs/cgroup/../../../proc/1/environ",
        "/sys/fs/cgroup/a.slice/../cpu.stat",
        "/tmp/x",
        "/etc/shadow",
        "",
        "/",
    ] {
        assert!(!check(path), "should not read {path}");
        assert!(!check_dir(path), "should not list {path}");
    }
}

#[test]
fn only_the_cgroup_hierarchy_is_listable() {
    assert!(check_dir(CGROUP_ROOT));
    assert!(check_dir(SCOPE));
    assert!(!check_dir("/sys/fs"));
    assert!(!check_dir("/sys/fs/cgroups"));
    assert!(!check_dir("/sys/fs/cgroup/"));
    assert!(!check_dir("/proc"));
    assert!(!check_dir("/proc/1"));
}

#[test]
fn listing_a_directory_does_not_make_its_files_readable() {
    assert!(!check(SCOPE));
    for name in ["cgroup.kill", "memory.reclaim", "io.stat", "cpu.stats", ".", ".."] {
        assert!(!check(&file_in(SCOPE, name)), "should not read {name}");
    }
    // The root holds no container.
    assert!(!check("/sys/fs/cgroup/cpu.stat"));
}
