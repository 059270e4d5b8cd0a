use ops_mcp::cgroup::{classify, cpu_max, file_in, keyed, limit, single};

#[test]
fn recognizes_each_runtime_naming_convention() {
    let cases = [
        ("docker-abc123def456.scope", "docker", "abc123def456"),
        ("libpod-def456abc789.scope", "podman", "def456abc789"),
        (
            "cri-containerd-789aaa012bcd.scope",
            "containerd",
            "789aaa012bcd",
        ),
        ("crio-bbb222ccc333.scope", "cri-o", "bbb222ccc333"),
    ];
    for (dir, runtime, id) in cases {
        let (r, i) = classify(dir).unwrap_or_else(|| panic!("should classify {dir}"));
        assert_eq!((r, i.as_str()), (runtime, id), "for {dir}");
    }
}

#[test]
fn ignores_podman_infrastructure_scopes() {
    // Verified against a real rootless podman container: podman creates a
    // sibling monitor scope whose name strips to `conmon-<id>`.
    assert!(
        classify("libpod-conmon-b013beb7ae662d0d287e1df78087cff4859a4fb5.scope").is_none(),
        "conmon scope must not be reported as a container"
    );
    // The container's own scope alongside it still classifies.
    let (r, id) = classify("libpod-b013beb7ae662d0d287e1df78087cff4859a4fb5.scope").expect("real");
    assert_eq!(r, "podman");
    assert_eq!(id, "b013beb7ae662d0d287e1df78087cff4859a4fb5");
}

#[test]
fn requires_a_hex_id() {
    assert!(classify("docker-not-a-hex-id.scope").is_none());
    assert!(classify("docker-abc.scope").is_none(), "too short");
    assert!(classify("libpod-zzzzzzzzzzzzzz.scope").is_none(), "not hex");
    assert!(
        classify("docker-abcdef012345.scope").is_some(),
        "12 hex is fine"
    );
}

#[test]
fn ignores_cgroups_that_are_not_containers() {
    for dir in [
        "system.slice",
        "user.slice",
        "init.scope",
        "sshd.service",
        "kubepods-burstable.slice",
        "docker.service",
        "docker-no-suffix",
    ] {
        assert!(classify(dir).is_none(), "should not classify {dir}");
    }
}

#[test]
fn an_unset_limit_is_none_not_a_number() {
    // The whole point: `max` means no limit is configured, which is a fact
    // to report, not a reading that failed.
    assert_eq!(limit("max"), None);
    assert_eq!(limit("max\n"), None);
    assert_eq!(limit("536870912"), Some(536870912));
    assert_eq!(limit("536870912\n"), Some(536870912));
    assert_eq!(limit("0"), Some(0));
}

#[test]
fn cpu_max_reports_a_quota_only_when_one_is_set() {
    // The period is 100000 by default whether or not anything is limited,
    // so the period alone must never be mistaken for a limit.
    assert_eq!(cpu_max("max 100000"), None);
    assert_eq!(cpu_max("max 100000\n"), None);
    assert_eq!(cpu_max("200000 100000"), Some((200000, 100000)));
    assert_eq!(cpu_max("50000 100000"), Some((50000, 100000)));
    assert_eq!(cpu_max("garbage"), None);
    assert_eq!(cpu_max(""), None);
}

#[test]
fn reads_keyed_lines() {
    let stat = "usage_usec 120943150\nuser_usec 68151710\nnr_throttled 0\nthrottled_usec 42\n";
    assert_eq!(keyed(stat, "usage_usec"), Some(120943150));
    assert_eq!(keyed(stat, "throttled_usec"), Some(42));
    assert_eq!(keyed(stat, "nr_throttled"), Some(0));
    assert_eq!(keyed(stat, "absent_key"), None);
    // A prefix of a real key must not match it.
    assert_eq!(keyed(stat, "usage"), None);
}

#[test]
fn reads_memory_events() {
    let events = "low 0\nhigh 3\nmax 7\noom 2\noom_kill 1\n";
    assert_eq!(keyed(events, "max"), Some(7));
    assert_eq!(keyed(events, "oom"), Some(2));
    assert_eq!(keyed(events, "oom_kill"), Some(1));
    assert_eq!(keyed(events, "high"), Some(3));
}

#[test]
fn reads_single_value_files() {
    assert_eq!(single("102903808"), Some(102903808));
    assert_eq!(single("9\n"), Some(9));
    assert_eq!(single("max"), None);
    assert_eq!(single(""), None);
}

#[test]
fn an_id_may_be_upper_case_and_of_any_length_from_twelve() {
    assert_eq!(
        classify("crio-ABCDEF012345.scope"),
        Some(("cri-o", "ABCDEF012345".to_owned()))
    );
    assert_eq!(classify("docker-abcdef01234.scope"), None);
    let long = "0123456789abcdef".repeat(4);
    let name = format!("docker-{long}.scope");
    assert_eq!(classify(&name), Some(("docker", long)));
    // Twelve bytes of fewer characters are no hexadecimal digits.
    assert_eq!(classify("docker-\u{e9}\u{e9}\u{e9}\u{e9}\u{e9}\u{e9}.scope"), None);
    assert_eq!(classify(".scope"), None);
    assert_eq!(classify(""), None);
}

#[test]
fn the_first_line_of_a_key_decides() {
    assert_eq!(keyed("a 1\na 2\n", "a"), Some(1));
    assert_eq!(keyed("a x\na 2\n", "a"), None);
    assert_eq!(keyed("a   7 \n", "a"), Some(7));
    assert_eq!(keyed("b 1\r\na 5\r\n", "a"), Some(5));
    assert_eq!(keyed("a 18446744073709551615", "a"), Some(u64::MAX));
    assert_eq!(keyed("a 18446744073709551616", "a"), None);
    assert_eq!(keyed("a 1 2", "a"), None);
}

#[test]
fn a_quota_needs_a_period() {
    assert_eq!(cpu_max("200000"), None);
    assert_eq!(cpu_max("200000 x"), None);
    assert_eq!(cpu_max(" 200000\t100000 more"), Some((200000, 100000)));
}

#[test]
fn limits_and_single_values_accept_the_same_numbers() {
    assert_eq!(single("+5"), Some(5));
    assert_eq!(limit("+5"), Some(5));
    assert_eq!(single("-5"), None);
    assert_eq!(limit("maximum"), None);
    assert_eq!(limit("5 6"), None);
}

#[test]
fn joins_a_directory_and_a_name() {
    assert_eq!(
        file_in("/sys/fs/cgroup/a.slice", "cpu.stat"),
        "/sys/fs/cgroup/a.slice/cpu.stat"
    );
}
