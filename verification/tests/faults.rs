use ops_mcp::fault::{unknown_container_message, unknown_target_message, Fault, FaultKind};
use ops_mcp::target::{check_target, LOCAL_TARGET};

#[test]
fn only_the_local_target_exists() {
    assert_eq!(LOCAL_TARGET, "local");
    assert!(check_target("local").is_ok());
    for alias in ["nas", "", "Local", "local ", "locals", "loca"] {
        let fault = check_target(alias).err().expect("no such target");
        assert_eq!(fault.kind(), FaultKind::InvalidParams);
        assert_eq!(fault.log_line(), None);
        assert_eq!(
            fault.message(),
            format!("unknown target {alias:?}; the only available target is \"local\"")
        );
    }
}

#[test]
fn an_alias_is_quoted_and_escaped() {
    let fault = check_target("a\"b\n\u{7}").err().expect("no such target");
    assert_eq!(
        fault.message(),
        "unknown target \"a\\\"b\\n\\u{7}\"; the only available target is \"local\""
    );
}

#[test]
fn an_unknown_container_points_at_the_list() {
    let fault = Fault::UnknownContainer {
        target: "local".to_owned(),
        container: "dead\tbeef".to_owned(),
    };
    assert_eq!(
        fault.message(),
        "no container \"dead\\tbeef\" on target \"local\"; \
         call container_list for the containers that exist now"
    );
    assert_eq!(fault.kind(), FaultKind::InvalidParams);
    assert_eq!(fault.log_line(), None);
}

#[test]
fn messages_are_built_around_the_quoted_names() {
    assert_eq!(
        unknown_target_message("<x>"),
        "unknown target <x>; the only available target is \"local\""
    );
    assert_eq!(
        unknown_container_message("<c>", "<t>"),
        "no container <c> on target <t>; call container_list for the containers that exist now"
    );
}

#[test]
fn faults_of_the_machine_are_told_apart_only_in_the_log() {
    let a = Fault::Unreadable {
        path: "/proc/stat".to_owned(),
        detail: "Permission denied (os error 13)".to_owned(),
    };
    let b = Fault::Malformed {
        path: "/proc/meminfo".to_owned(),
        what: "MemTotal".to_owned(),
    };
    assert_eq!(a.message(), b.message());
    assert_eq!(a.message(), "failed to read system information");
    assert_eq!((a.kind(), b.kind()), (FaultKind::InternalError, FaultKind::InternalError));
    assert_eq!(
        a.log_line(),
        Some("ops-mcp: failed to read /proc/stat: Permission denied (os error 13)".to_owned())
    );
    assert_eq!(
        b.log_line(),
        Some("ops-mcp: could not parse MemTotal from /proc/meminfo".to_owned())
    );
}
