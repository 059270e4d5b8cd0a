use ops_mcp::cgroup::{file_in, Found};
use ops_mcp::discovery::{base_name, parent, recognize, Discovery, CGROUP_ROOT, MAX_DEPTH};
use ops_mcp::guard::{check, check_dir};
use std::collections::BTreeMap;

/// Walk a hierarchy given by what listing each directory gives.
fn walk(tree: &BTreeMap<String, Vec<String>>) -> (Vec<Found>, Vec<String>) {
    let mut discovery = Discovery::start();
    let mut listed = Vec::new();
    while let Some(dir) = discovery.pending() {
        let dir = dir.to_owned();
        let children = tree
            .get(&dir)
            .map(|names| names.iter().map(|n| format!("{dir}/{n}")).collect());
        listed.push(dir);
        discovery.listed(children);
    }
    (discovery.finish(), listed)
}

fn tree(dirs: &[(&str, &[&str])]) -> BTreeMap<String, Vec<String>> {
    dirs.iter()
        .map(|(dir, names)| {
            (
                format!("{CGROUP_ROOT}{dir}"),
                names.iter().map(|n| (*n).to_owned()).collect(),
            )
        })
        .collect()
}

const DOCKER: &str = "docker-aaaaaaaaaaaa.scope";
const PODMAN: &str = "libpod-bbbbbbbbbbbb.scope";
const CONMON: &str = "libpod-conmon-bbbbbbbbbbbb.scope";

#[test]
fn finds_containers_at_every_level_in_order_of_path() {
    let t = tree(&[
        ("", &["user.slice", "system.slice", "init.scope"]),
        ("/system.slice", &["sshd.service", DOCKER]),
        ("/user.slice", &["user-1000.slice", PODMAN, CONMON]),
        ("/user.slice/user-1000.slice", &["crio-cccccccccccc.scope"]),
    ]);
    let (found, _) = walk(&t);
    let got: Vec<(&str, &str, &str)> = found
        .iter()
        .map(|f| (f.id.as_str(), f.runtime, f.path.as_str()))
        .collect();
    assert_eq!(
        got,
        vec![
            (
                "aaaaaaaaaaaa",
                "docker",
                "/sys/fs/cgroup/system.slice/docker-aaaaaaaaaaaa.scope"
            ),
            (
                "bbbbbbbbbbbb",
                "podman",
                "/sys/fs/cgroup/user.slice/libpod-bbbbbbbbbbbb.scope"
            ),
            (
                "cccccccccccc",
                "cri-o",
                "/sys/fs/cgroup/user.slice/user-1000.slice/crio-cccccccccccc.scope"
            ),
        ]
    );
}

#[test]
fn the_order_of_listing_does_not_show() {
    let a = tree(&[("", &["a.slice", "b.slice", DOCKER]), ("/a.slice", &[PODMAN]), ("/b.slice", &[PODMAN])]);
    let b = tree(&[("", &[DOCKER, "b.slice", "a.slice"]), ("/a.slice", &[PODMAN]), ("/b.slice", &[PODMAN])]);
    let paths = |t| -> Vec<String> { walk(t).0.into_iter().map(|f| f.path).collect() };
    assert_eq!(paths(&a), paths(&b));
    assert_eq!(paths(&a).len(), 3);
}

#[test]
fn containers_are_not_descended_into() {
    let inner = format!("/{DOCKER}");
    let t = tree(&[("", &[DOCKER]), (inner.as_str(), &[PODMAN])]);
    let (found, listed) = walk(&t);
    assert_eq!(found.len(), 1);
    assert_eq!(listed, vec![CGROUP_ROOT.to_owned()]);
}

#[test]
fn the_walk_is_bounded() {
    assert_eq!(MAX_DEPTH, 6);
    let mut t = BTreeMap::new();
    let mut dir = CGROUP_ROOT.to_owned();
    for depth in 1..=8 {
        let scope = format!("docker-{depth:012}.scope");
        t.insert(dir.clone(), vec!["deeper".to_owned(), scope]);
        dir.push_str("/deeper");
    }
    let (found, listed) = walk(&t);
    let mut ids: Vec<String> = found.into_iter().map(|f| f.id).collect();
    ids.sort();
    let expected: Vec<String> = (1..=6).map(|d| format!("{d:012}")).collect();
    assert_eq!(ids, expected);
    assert_eq!(listed.len(), 6);
}

#[test]
fn a_directory_that_cannot_be_listed_hides_only_itself() {
    let t = tree(&[("", &["gone.slice", "a.slice"]), ("/a.slice", &[DOCKER])]);
    assert_eq!(walk(&t).0.len(), 1);
    assert!(walk(&BTreeMap::new()).0.is_empty());
}

#[test]
fn the_walk_goes_level_by_level() {
    let t = tree(&[("", &["b", "a"]), ("/b", &["c"]), ("/a", &["d"])]);
    let below: Vec<String> = ["", "/b", "/a", "/b/c", "/a/d"]
        .iter()
        .map(|d| format!("{CGROUP_ROOT}{d}"))
        .collect();
    assert_eq!(walk(&t).1, below);
}

#[test]
fn the_name_of_a_directory_is_what_follows_the_last_slash() {
    for path in ["", "/", "a", "/a", "a/", "/sys/fs/cgroup/a.slice", "\u{e9}/\u{1f600}"] {
        assert_eq!(base_name(path), path.rsplit('/').next().unwrap_or_default());
    }
}

#[test]
fn the_walk_stays_within_the_guard() {
    let t = tree(&[("", &["a.slice", DOCKER]), ("/a.slice", &[PODMAN])]);
    let (found, listed) = walk(&t);
    assert_eq!((found.len(), listed.len()), (2, 2));
    assert!(listed.iter().all(|dir| check_dir(dir)));
    for f in found {
        assert!(check_dir(&f.path));
        assert!(check(&file_in(&f.path, "cpu.stat")));
        assert!(!check(&file_in(&f.path, "cgroup.kill")));
    }
}

#[test]
fn finds_docker_containers_that_are_named_by_their_id_alone() {
    let id = "0123456789abcdef".repeat(4);
    let t = tree(&[
        ("", &["docker", "system.slice"]),
        ("/docker", &[id.as_str(), "buildkit", "abc"]),
        ("/system.slice", &[id.as_str(), DOCKER]),
    ]);
    let (found, listed) = walk(&t);
    let got: Vec<(&str, &str, &str)> = found
        .iter()
        .map(|f| (f.id.as_str(), f.runtime, f.path.as_str()))
        .collect();
    let path = format!("/sys/fs/cgroup/docker/{id}");
    assert_eq!(
        got,
        vec![
            (id.as_str(), "docker", path.as_str()),
            (
                "aaaaaaaaaaaa",
                "docker",
                "/sys/fs/cgroup/system.slice/docker-aaaaaaaaaaaa.scope"
            ),
        ]
    );
    // The container is not descended into; what only looks like one elsewhere is.
    assert!(!listed.contains(&path));
    assert!(listed.contains(&format!("/sys/fs/cgroup/system.slice/{id}")));
}

#[test]
fn an_id_alone_is_a_container_only_below_docker() {
    let docker = |id: &str| Some(("docker", id.to_owned()));
    assert_eq!(recognize("/sys/fs/cgroup/docker/abcdef012345"), docker("abcdef012345"));
    assert_eq!(recognize("/sys/fs/cgroup/a/docker/abcdef012345"), docker("abcdef012345"));
    assert_eq!(recognize("/sys/fs/cgroup/docker/abcdef01234"), None);
    assert_eq!(recognize("/sys/fs/cgroup/docker/abcdef01234x"), None);
    assert_eq!(recognize("/sys/fs/cgroup/dockers/abcdef012345"), None);
    assert_eq!(recognize("/sys/fs/cgroup/docker/a/abcdef012345"), None);
    assert_eq!(recognize("/sys/fs/cgroup/docker"), None);
    assert_eq!(recognize("abcdef012345"), None);
    assert_eq!(
        recognize("/sys/fs/cgroup/docker/libpod-abcdef012345.scope"),
        Some(("podman", "abcdef012345".to_owned()))
    );
}

#[test]
fn the_parent_of_a_directory_is_what_precedes_the_last_slash() {
    for path in ["", "/", "a", "/a", "a/", "/sys/fs/cgroup/a.slice", "\u{e9}/\u{1f600}", "//"] {
        assert_eq!(parent(path), path.rsplit_once('/').map_or("", |(p, _)| p));
    }
}

#[test]
fn a_refused_directory_counts_as_one_that_could_not_be_listed() {
    let mut discovery = Discovery::start();
    discovery.listed(Some(vec![
        "/etc".to_owned(),
        "/sys/fs/cgroup/../x".to_owned(),
        "/sys/fs/cgroup/a".to_owned(),
    ]));
    for dir in ["/etc", "/sys/fs/cgroup/../x", "/sys/fs/cgroup/a"] {
        assert_eq!(discovery.pending(), Some(dir));
        discovery.listed(Some(vec![format!("{dir}/{DOCKER}"), format!("{dir}/b")]));
    }
    assert_eq!(discovery.pending(), Some("/sys/fs/cgroup/a/b"));
    discovery.listed(None);
    assert_eq!(discovery.pending(), None);
    let paths: Vec<String> = discovery.finish().into_iter().map(|f| f.path).collect();
    assert_eq!(paths, vec![format!("/sys/fs/cgroup/a/{DOCKER}")]);
}
