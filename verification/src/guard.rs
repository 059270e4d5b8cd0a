//! Which paths may be opened.
//!
//! Reading goes through one allowlist: a path is refused unless it has a shape
//! that one of the tools reads. Under `/proc/<pid>/` that is `comm` alone, so
//! neither the arguments nor the environment of a process can be read. Listing is
//! confined to the cgroup hierarchy, and being able to list a directory does not
//! make its files readable.
//!
//! Paths are judged by their text. A component that is empty, `.` or `..` is
//! refused, since no tool writes one.
use vstd::prelude::*;

use crate::cgroup::file_in_of;
use crate::discovery::CGROUP_ROOT;
use crate::identity::comm_path_of;
use crate::number::{all_digits, is_digit, only_digits};
use crate::text::{
    begins, but, lemma_span, lemma_split_first, lemma_split_last, lemma_split_one, same, span,
    split, split_of, views,
};

verus! {

broadcast use vstd::string::group_string_axioms;

/// The components of a path. That of an absolute path begins with an empty one.
pub open spec fn components(path: Seq<char>) -> Seq<Seq<char>> {
    split_of(path, '/')
}

/// Whether a component means what it says, rather than nothing, the directory
/// itself or the one above.
pub open spec fn is_plain(component: Seq<char>) -> bool {
    component.len() > 0 && component != "."@ && component != ".."@
}

/// Whether the path is absolute and all its components are plain.
pub open spec fn is_sound(parts: Seq<Seq<char>>) -> bool {
    &&& parts.len() >= 2
    &&& parts[0].len() == 0
    &&& forall|i: int| 1 <= i < parts.len() ==> is_plain(#[trigger] parts[i])
}

/// The files directly under `/proc` that are read.
pub open spec fn is_proc_file(name: Seq<char>) -> bool {
    name == "uptime"@ || name == "stat"@ || name == "loadavg"@ || name == "meminfo"@
}

/// The files under `/proc/pressure` that are read.
pub open spec fn is_pressure_file(name: Seq<char>) -> bool {
    name == "cpu"@ || name == "memory"@ || name == "io"@
}

/// The files under `/proc/sys/kernel` that are read.
pub open spec fn is_kernel_file(name: Seq<char>) -> bool {
    name == "hostname"@ || name == "osrelease"@
}

/// The files of a container's cgroup that are read.
pub open spec fn is_cgroup_file(name: Seq<char>) -> bool {
    ||| name == "cgroup.procs"@
    ||| name == "cpu.stat"@
    ||| name == "cpu.max"@
    ||| name == "cpu.weight"@
    ||| name == "cpu.pressure"@
    ||| name == "memory.current"@
    ||| name == "memory.max"@
    ||| name == "memory.high"@
    ||| name == "memory.swap.current"@
    ||| name == "memory.events"@
    ||| name == "memory.pressure"@
    ||| name == "pids.current"@
    ||| name == "pids.max"@
    ||| name == "io.pressure"@
}

/// Whether `s` is a process ID.
pub open spec fn is_pid(s: Seq<char>) -> bool {
    s.len() > 0 && all_digits(s)
}

/// Whether a path has one of the shapes that are read under `/proc`.
pub open spec fn in_proc(parts: Seq<Seq<char>>) -> bool {
    &&& parts.len() >= 3
    &&& parts[1] == "proc"@
    &&& {
        ||| parts.len() == 3 && is_proc_file(parts[2])
        ||| parts.len() == 4 && parts[2] == "pressure"@ && is_pressure_file(parts[3])
        ||| parts.len() == 4 && is_pid(parts[2]) && parts[3] == "comm"@
        ||| parts.len() == 5 && parts[2] == "sys"@ && parts[3] == "kernel"@ && is_kernel_file(
            parts[4],
        )
    }
}

/// Whether a path is the root of the cgroup hierarchy or below it.
pub open spec fn in_cgroup(parts: Seq<Seq<char>>) -> bool {
    parts.len() >= 4 && parts[1] == "sys"@ && parts[2] == "fs"@ && parts[3] == "cgroup"@
}

/// Whether a path ends in the name of a file that holds the arguments or the
/// environment of a process. Such a file is never read, whatever the allowlist
/// comes to say.
pub open spec fn is_forbidden(parts: Seq<Seq<char>>) -> bool {
    parts.last() == "cmdline"@ || parts.last() == "environ"@
}

/// Whether a file may be read.
pub open spec fn may_read(path: Seq<char>) -> bool {
    let parts = components(path);
    &&& is_sound(parts)
    &&& !is_forbidden(parts)
    &&& in_proc(parts) || (in_cgroup(parts) && parts.len() >= 6 && is_cgroup_file(parts.last()))
}

/// Whether a directory may be listed.
pub open spec fn may_list(path: Seq<char>) -> bool {
    is_sound(components(path)) && in_cgroup(components(path))
}

/// Whether the path is absolute and all its components are plain.
fn sound(parts: &Vec<&str>) -> (r: bool)
    ensures
        r == is_sound(views(parts@)),
{
    let ghost s = views(parts@);
    assert(s.len() == parts@.len());
    if parts.len() < 2 {
        return false;
    }
    assert(s[0] == parts@[0]@);
    if !parts[0].is_empty() {
        return false;
    }
    let mut i: usize = 1;
    while i < parts.len()
        invariant
            1 <= i <= parts@.len(),
            s == views(parts@),
            forall|j: int| 1 <= j < i ==> is_plain(#[trigger] s[j]),
        decreases parts@.len() - i,
    {
        let part = parts[i];
        assert(s[i as int] == part@);
        if part.is_empty() || same(part, ".") || same(part, "..") {
            assert(!is_plain(s[i as int]));
            return false;
        }
        i = i + 1;
    }
    true
}

/// Whether `name` is a file of a container's cgroup that is read.
fn cgroup_file(name: &str) -> (r: bool)
    ensures
        r == is_cgroup_file(name@),
{
    same(name, "cgroup.procs") || same(name, "cpu.stat") || same(name, "cpu.max") || same(
        name,
        "cpu.weight",
    ) || same(name, "cpu.pressure") || same(name, "memory.current") || same(name, "memory.max")
        || same(name, "memory.high") || same(name, "memory.swap.current") || same(
        name,
        "memory.events",
    ) || same(name, "memory.pressure") || same(name, "pids.current") || same(name, "pids.max")
        || same(name, "io.pressure")
}

/// Whether a path has one of the shapes that are read under `/proc`.
fn proc_shape(parts: &Vec<&str>) -> (r: bool)
    ensures
        r == in_proc(views(parts@)),
{
    let ghost s = views(parts@);
    assert(s.len() == parts@.len());
    assert(forall|i: int| 0 <= i < s.len() ==> #[trigger] s[i] == parts@[i]@);
    let n: usize = parts.len();
    if n < 3 || !same(parts[1], "proc") {
        false
    } else if n == 3 {
        same(parts[2], "uptime") || same(parts[2], "stat") || same(parts[2], "loadavg") || same(
            parts[2],
            "meminfo",
        )
    } else if n == 4 {
        (same(parts[2], "pressure") && (same(parts[3], "cpu") || same(parts[3], "memory") || same(
            parts[3],
            "io",
        ))) || (!parts[2].is_empty() && only_digits(parts[2]) && same(parts[3], "comm"))
    } else {
        n == 5 && same(parts[2], "sys") && same(parts[3], "kernel") && (same(parts[4], "hostname")
            || same(parts[4], "osrelease"))
    }
}

/// Whether a path is the root of the cgroup hierarchy or below it.
fn cgroup_shape(parts: &Vec<&str>) -> (r: bool)
    ensures
        r == in_cgroup(views(parts@)),
{
    let ghost s = views(parts@);
    assert(s.len() == parts@.len());
    assert(forall|i: int| 0 <= i < s.len() ==> #[trigger] s[i] == parts@[i]@);
    parts.len() >= 4 && same(parts[1], "sys") && same(parts[2], "fs") && same(parts[3], "cgroup")
}

/// Whether a file may be read.
pub fn check(path: &str) -> (r: bool)
    ensures
        r == may_read(path@),
{
    let parts = split(path, '/');
    let ghost s = views(parts@);
    assert(s.len() == parts@.len());
    if !sound(&parts) {
        return false;
    }
    let n: usize = parts.len();
    let last = parts[n - 1];
    assert(s.last() == last@);
    if same(last, "cmdline") || same(last, "environ") {
        return false;
    }
    proc_shape(&parts) || (cgroup_shape(&parts) && n >= 6 && cgroup_file(last))
}

/// Whether a directory may be listed.
pub fn check_dir(path: &str) -> (r: bool)
    ensures
        r == may_list(path@),
{
    let parts = split(path, '/');
    sound(&parts) && cgroup_shape(&parts)
}

/// No name on the allowlist of cgroup files is a path of its own, hidden in dots
/// or forbidden.
proof fn lemma_cgroup_file(name: Seq<char>)
    requires
        is_cgroup_file(name),
    ensures
        !name.contains('/'),
        is_plain(name),
        name != "cmdline"@,
        name != "environ"@,
{
    reveal_strlit(".");
    reveal_strlit("..");
    reveal_strlit("cmdline");
    reveal_strlit("environ");
    reveal_strlit("cgroup.procs");
    reveal_strlit("cpu.stat");
    reveal_strlit("cpu.max");
    reveal_strlit("cpu.weight");
    reveal_strlit("cpu.pressure");
    reveal_strlit("memory.current");
    reveal_strlit("memory.max");
    reveal_strlit("memory.high");
    reveal_strlit("memory.swap.current");
    reveal_strlit("memory.events");
    reveal_strlit("memory.pressure");
    reveal_strlit("pids.current");
    reveal_strlit("pids.max");
    reveal_strlit("io.pressure");
    assert(name[1] != "cmdline"@[1] || name[2] != "cmdline"@[2]);
    assert(name[0] != "environ"@[0]);
    assert(name.len() > 2);
}

/// There is at least one part, and where there is no separator just one.
proof fn lemma_split_count(s: Seq<char>, sep: char)
    ensures
        split_of(s, sep).len() >= 1,
        split_of(s, sep).len() == 1 ==> split_of(s, sep)[0] == s,
    decreases s.len(),
{
    lemma_span(s, but(sep));
    let n = span(s, but(sep));
    if n < s.len() {
        lemma_split_count(s.skip(n + 1), sep);
    }
}

/// The first part stands before the first separator, and the other parts are
/// those of what follows it.
proof fn lemma_unsplit(s: Seq<char>, sep: char) -> (rest: Seq<char>)
    requires
        split_of(s, sep).len() >= 2,
    ensures
        s == split_of(s, sep)[0] + seq![sep] + rest,
        split_of(rest, sep) == split_of(s, sep).drop_first(),
{
    lemma_span(s, but(sep));
    let n = span(s, but(sep));
    let rest = s.skip(n + 1);
    assert(s[n] == sep);
    assert(s =~= s.take(n) + seq![sep] + rest);
    assert(split_of(rest, sep) =~= split_of(s, sep).drop_first());
    rest
}

/// What is refused among the components of a path is nowhere in one that may be
/// read or listed: there is no way around the allowlist through an empty
/// component, `.` or `..`.
pub proof fn law_no_detours(path: Seq<char>)
    requires
        may_read(path) || may_list(path),
    ensures
        forall|i: int|
            1 <= i < components(path).len() ==> (#[trigger] components(path)[i]).len() > 0
                && components(path)[i] != "."@ && components(path)[i] != ".."@,
{
    assert forall|i: int| 1 <= i < components(path).len() implies (#[trigger] components(
        path,
    )[i]).len() > 0 && components(path)[i] != "."@ && components(path)[i] != ".."@ by {
        assert(is_plain(components(path)[i]));
    }
}

/// Of what the kernel says about a process, only its name may be read: not its
/// arguments, not its environment, and nothing else.
pub proof fn law_only_the_name_of_a_process(path: Seq<char>)
    requires
        may_read(path),
        components(path).len() >= 3,
        components(path)[1] == "proc"@,
        is_pid(components(path)[2]),
    ensures
        components(path).len() == 4,
        components(path)[3] == "comm"@,
{
    reveal_strlit("proc");
    reveal_strlit("sys");
    reveal_strlit("uptime");
    reveal_strlit("stat");
    reveal_strlit("loadavg");
    reveal_strlit("meminfo");
    reveal_strlit("pressure");
    let parts = components(path);
    assert("proc"@[0] != "sys"@[0]);
    assert(is_digit(parts[2][0]));
}

/// A file that holds the arguments or the environment of a process may not be
/// read under any path.
pub proof fn law_arguments_and_environment_are_unreadable(path: Seq<char>)
    requires
        components(path).last() == "cmdline"@ || components(path).last() == "environ"@,
    ensures
        !may_read(path),
{
}

/// The name of a process may be read if and only if the process is given by its
/// number.
pub proof fn law_comm_is_readable(pid: Seq<char>)
    ensures
        may_read(comm_path_of(pid)) <==> is_pid(pid),
{
    reveal_strlit("/proc/");
    reveal_strlit("proc");
    reveal_strlit("/comm");
    reveal_strlit("comm");
    reveal_strlit("sys");
    reveal_strlit("hostname");
    reveal_strlit("osrelease");
    reveal_strlit("pressure");
    reveal_strlit("cmdline");
    reveal_strlit("environ");
    reveal_strlit("cpu");
    reveal_strlit("memory");
    reveal_strlit("io");
    reveal_strlit(".");
    reveal_strlit("..");
    let path = comm_path_of(pid);
    let none = Seq::<char>::empty();
    let tail = pid + seq!['/'] + "comm"@;
    assert(path =~= none + seq!['/'] + ("proc"@ + seq!['/'] + tail));
    lemma_split_first(none, '/', "proc"@ + seq!['/'] + tail);
    lemma_split_first("proc"@, '/', tail);
    lemma_split_last(pid, '/', "comm"@);
    let mid = split_of(pid, '/');
    let parts = components(path);
    assert(parts =~= seq![none, "proc"@] + mid.push("comm"@));
    lemma_split_count(pid, '/');
    assert(parts.last() == "comm"@);
    assert("comm"@[1] != "hostname"@[1] || "comm"@.len() != "hostname"@.len());
    assert("comm"@.len() == 4 && "osrelease"@.len() == 9 && "hostname"@.len() == 8);
    assert("proc"@[0] != "sys"@[0]);
    if is_pid(pid) {
        assert(!pid.contains('/')) by {
            if pid.contains('/') {
                let i = choose|i: int| 0 <= i < pid.len() && pid[i] == '/';
                assert(is_digit(pid[i]));
            }
        }
        lemma_split_one(pid, '/');
        assert(parts =~= seq![none, "proc"@, pid, "comm"@]);
        assert(is_digit(pid[0]));
        assert("."@[0] == '.' && ".."@[0] == '.');
        assert(is_plain(pid));
        assert("comm"@ != "cmdline"@) by {
            assert("comm"@.len() != "cmdline"@.len());
        }
        assert("comm"@ != "environ"@) by {
            assert("comm"@.len() != "environ"@.len());
        }
        assert(is_sound(parts));
    }
    if may_read(path) {
        assert(!is_cgroup_file("comm"@) || !in_cgroup(parts));
        assert(parts.len() == 4);
        assert(mid.len() == 1);
        assert(parts[2] == pid);
        assert("comm"@.len() != "cpu"@.len() && "comm"@.len() != "memory"@.len() && "comm"@.len()
            != "io"@.len());
    }
}

/// What is listed is the root of the cgroup hierarchy or below it.
pub proof fn law_listing_is_confined(path: Seq<char>)
    requires
        may_list(path),
    ensures
        path == CGROUP_ROOT@ || begins(path, CGROUP_ROOT@ + "/"@),
{
    lemma_below_root(path);
}

/// A sound path whose components begin as those of the cgroup root do is the
/// root or below it.
proof fn lemma_below_root(path: Seq<char>)
    requires
        is_sound(components(path)),
        in_cgroup(components(path)),
    ensures
        path == CGROUP_ROOT@ || begins(path, CGROUP_ROOT@ + "/"@),
        components(path).len() >= 5 ==> begins(path, CGROUP_ROOT@ + "/"@),
{
    reveal_strlit("/sys/fs/cgroup");
    reveal_strlit("sys");
    reveal_strlit("fs");
    reveal_strlit("cgroup");
    reveal_strlit("/");
    let parts = components(path);
    let a = lemma_unsplit(path, '/');
    let b = lemma_unsplit(a, '/');
    let c = lemma_unsplit(b, '/');
    let last = split_of(c, '/');
    assert(last =~= parts.skip(3));
    assert(last[0] == "cgroup"@);
    lemma_split_count(c, '/');
    let head = "/sys/fs/"@;
    reveal_strlit("/sys/fs/");
    assert(path =~= head + c);
    assert(CGROUP_ROOT@ =~= head + "cgroup"@);
    if last.len() == 1 {
        assert(path =~= CGROUP_ROOT@);
    } else {
        let d = lemma_unsplit(c, '/');
        let root = CGROUP_ROOT@ + "/"@;
        assert(path =~= root + d);
        assert(path.take(root.len() as int) =~= root);
    }
}

/// What is read lies under `/proc` or below the root of the cgroup hierarchy.
pub proof fn law_reading_is_confined(path: Seq<char>)
    requires
        may_read(path),
    ensures
        begins(path, "/proc/"@) || begins(path, CGROUP_ROOT@ + "/"@),
{
    let parts = components(path);
    if in_proc(parts) {
        reveal_strlit("proc");
        reveal_strlit("/proc/");
        let a = lemma_unsplit(path, '/');
        let b = lemma_unsplit(a, '/');
        assert(path =~= "/proc/"@ + b);
        assert(path.take("/proc/"@.len() as int) =~= "/proc/"@);
    } else {
        lemma_below_root(path);
    }
}

/// Where a directory below the cgroup root may be listed, of the files directly
/// in it exactly those of the allowlist may be read.
pub proof fn law_files_of_a_cgroup(dir: Seq<char>, name: Seq<char>)
    requires
        may_list(dir),
        dir != CGROUP_ROOT@,
        !name.contains('/'),
    ensures
        may_read(file_in_of(dir, name)) <==> is_cgroup_file(name),
{
    reveal_strlit("/");
    reveal_strlit("/sys/fs/cgroup");
    reveal_strlit("sys");
    reveal_strlit("fs");
    reveal_strlit("cgroup");
    reveal_strlit("proc");
    let path = file_in_of(dir, name);
    assert("/"@ =~= seq!['/']);
    lemma_split_last(dir, '/', name);
    let above = components(dir);
    let parts = components(path);
    assert(parts == above.push(name));
    if above.len() == 4 {
        let a = lemma_unsplit(dir, '/');
        let b = lemma_unsplit(a, '/');
        let c = lemma_unsplit(b, '/');
        lemma_split_count(c, '/');
        assert(split_of(c, '/') =~= above.skip(3));
        assert(dir =~= CGROUP_ROOT@);
    }
    assert("proc"@[0] != "sys"@[0]);
    assert(parts.last() == name);
    if is_cgroup_file(name) {
        lemma_cgroup_file(name);
        assert forall|i: int| 1 <= i < parts.len() implies is_plain(#[trigger] parts[i]) by {
            if i < above.len() {
                assert(is_plain(above[i]));
            }
        }
    }
}

/// A subdirectory of a directory that may be listed may be listed, where its
/// name is plain.
pub proof fn law_subdirectories_are_listable(dir: Seq<char>, name: Seq<char>)
    requires
        may_list(dir),
        is_plain(name),
        !name.contains('/'),
    ensures
        may_list(file_in_of(dir, name)),
{
    reveal_strlit("/");
    assert("/"@ =~= seq!['/']);
    lemma_split_last(dir, '/', name);
    let above = components(dir);
    let parts = components(file_in_of(dir, name));
    assert(parts == above.push(name));
    assert forall|i: int| 1 <= i < parts.len() implies is_plain(#[trigger] parts[i]) by {
        if i < above.len() {
            assert(is_plain(above[i]));
        }
    }
}

/// What stands in a directory that may be listed is not the root of the cgroup
/// hierarchy.
pub proof fn lemma_child_is_no_root(dir: Seq<char>, name: Seq<char>)
    requires
        may_list(dir),
        !name.contains('/'),
    ensures
        file_in_of(dir, name) != CGROUP_ROOT@,
{
    reveal_strlit("/");
    assert("/"@ =~= seq!['/']);
    lemma_split_last(dir, '/', name);
    assert(components(file_in_of(dir, name)).len() >= 5);
    lemma_root_listable();
}

/// The components of `/a/b`.
proof fn lemma_two_components(path: Seq<char>, a: Seq<char>, b: Seq<char>)
    requires
        !a.contains('/'),
        !b.contains('/'),
        path == seq!['/'] + a + seq!['/'] + b,
    ensures
        components(path) == seq![Seq::<char>::empty(), a, b],
{
    let none = Seq::<char>::empty();
    assert(path =~= none + seq!['/'] + (a + seq!['/'] + b));
    lemma_split_first(none, '/', a + seq!['/'] + b);
    lemma_split_first(a, '/', b);
    lemma_split_one(b, '/');
    assert(components(path) =~= seq![none, a, b]);
}

/// A file directly under `/proc` that is on the allowlist may be read.
proof fn lemma_proc_file(path: Seq<char>, name: Seq<char>)
    requires
        is_proc_file(name),
        path == "/proc/"@ + name,
    ensures
        may_read(path),
{
    reveal_strlit("/proc/");
    reveal_strlit("proc");
    reveal_strlit("uptime");
    reveal_strlit("stat");
    reveal_strlit("loadavg");
    reveal_strlit("meminfo");
    reveal_strlit("cmdline");
    reveal_strlit("environ");
    reveal_strlit(".");
    reveal_strlit("..");
    assert(path =~= seq!['/'] + "proc"@ + seq!['/'] + name);
    lemma_two_components(path, "proc"@, name);
    assert("cmdline"@[0] == 'c' && "environ"@[0] == 'e');
    assert(name[0] != 'c' && name[0] != 'e');
    assert(is_plain(name) && is_plain("proc"@));
}

/// A pressure file that is on the allowlist may be read.
proof fn lemma_pressure_file(path: Seq<char>, name: Seq<char>)
    requires
        is_pressure_file(name),
        path == "/proc/pressure/"@ + name,
    ensures
        may_read(path),
{
    reveal_strlit("/proc/pressure/");
    reveal_strlit("/proc/pressure");
    reveal_strlit("proc");
    reveal_strlit("pressure");
    reveal_strlit("cpu");
    reveal_strlit("memory");
    reveal_strlit("io");
    reveal_strlit("cmdline");
    reveal_strlit("environ");
    reveal_strlit(".");
    reveal_strlit("..");
    let dir = "/proc/pressure"@;
    assert(dir =~= seq!['/'] + "proc"@ + seq!['/'] + "pressure"@);
    lemma_two_components(dir, "proc"@, "pressure"@);
    assert(path =~= dir + seq!['/'] + name);
    lemma_split_last(dir, '/', name);
    assert(components(path) =~= seq![Seq::<char>::empty(), "proc"@, "pressure"@, name]);
    assert(name.len() != "cmdline"@.len() && name.len() != "environ"@.len());
    assert(name[0] != ".."@[0]);
    assert(is_plain(name) && is_plain("proc"@) && is_plain("pressure"@));
}

/// A file of the running kernel that is on the allowlist may be read.
proof fn lemma_kernel_file(path: Seq<char>, name: Seq<char>)
    requires
        is_kernel_file(name),
        path == "/proc/sys/kernel/"@ + name,
    ensures
        may_read(path),
{
    reveal_strlit("/proc/sys/kernel/");
    reveal_strlit("/proc/sys");
    reveal_strlit("proc");
    reveal_strlit("sys");
    reveal_strlit("kernel");
    reveal_strlit("hostname");
    reveal_strlit("osrelease");
    reveal_strlit("cmdline");
    reveal_strlit("environ");
    reveal_strlit(".");
    reveal_strlit("..");
    let dir = "/proc/sys"@;
    assert(dir =~= seq!['/'] + "proc"@ + seq!['/'] + "sys"@);
    lemma_two_components(dir, "proc"@, "sys"@);
    let sub = dir + seq!['/'] + "kernel"@;
    lemma_split_last(dir, '/', "kernel"@);
    assert(path =~= sub + seq!['/'] + name);
    lemma_split_last(sub, '/', name);
    assert(components(path) =~= seq![
        Seq::<char>::empty(),
        "proc"@,
        "sys"@,
        "kernel"@,
        name,
    ]);
    assert(name.len() != "cmdline"@.len() && name.len() != "environ"@.len());
    assert(is_plain(name) && is_plain("proc"@) && is_plain("sys"@) && is_plain("kernel"@));
}

/// Every file that the system tools read has a place on the allowlist, and
/// discovery may start where it does.
pub proof fn law_the_tools_may_read_what_they_read()
    ensures
        may_read("/proc/uptime"@),
        may_read("/proc/stat"@),
        may_read("/proc/loadavg"@),
        may_read("/proc/meminfo"@),
        may_read("/proc/pressure/cpu"@),
        may_read("/proc/pressure/memory"@),
        may_read("/proc/pressure/io"@),
        may_read("/proc/sys/kernel/hostname"@),
        may_read("/proc/sys/kernel/osrelease"@),
        may_list(CGROUP_ROOT@),
{
    reveal_strlit("/proc/");
    reveal_strlit("/proc/pressure/");
    reveal_strlit("/proc/sys/kernel/");
    reveal_strlit("uptime");
    reveal_strlit("stat");
    reveal_strlit("loadavg");
    reveal_strlit("meminfo");
    reveal_strlit("cpu");
    reveal_strlit("memory");
    reveal_strlit("io");
    reveal_strlit("hostname");
    reveal_strlit("osrelease");
    reveal_strlit("/proc/uptime");
    reveal_strlit("/proc/stat");
    reveal_strlit("/proc/loadavg");
    reveal_strlit("/proc/meminfo");
    reveal_strlit("/proc/pressure/cpu");
    reveal_strlit("/proc/pressure/memory");
    reveal_strlit("/proc/pressure/io");
    reveal_strlit("/proc/sys/kernel/hostname");
    reveal_strlit("/proc/sys/kernel/osrelease");
    assert("/proc/uptime"@ =~= "/proc/"@ + "uptime"@);
    lemma_proc_file("/proc/uptime"@, "uptime"@);
    assert("/proc/stat"@ =~= "/proc/"@ + "stat"@);
    lemma_proc_file("/proc/stat"@, "stat"@);
    assert("/proc/loadavg"@ =~= "/proc/"@ + "loadavg"@);
    lemma_proc_file("/proc/loadavg"@, "loadavg"@);
    assert("/proc/meminfo"@ =~= "/proc/"@ + "meminfo"@);
    lemma_proc_file("/proc/meminfo"@, "meminfo"@);
    assert("/proc/pressure/cpu"@ =~= "/proc/pressure/"@ + "cpu"@);
    lemma_pressure_file("/proc/pressure/cpu"@, "cpu"@);
    assert("/proc/pressure/memory"@ =~= "/proc/pressure/"@ + "memory"@);
    lemma_pressure_file("/proc/pressure/memory"@, "memory"@);
    assert("/proc/pressure/io"@ =~= "/proc/pressure/"@ + "io"@);
    lemma_pressure_file("/proc/pressure/io"@, "io"@);
    assert("/proc/sys/kernel/hostname"@ =~= "/proc/sys/kernel/"@ + "hostname"@);
    lemma_kernel_file("/proc/sys/kernel/hostname"@, "hostname"@);
    assert("/proc/sys/kernel/osrelease"@ =~= "/proc/sys/kernel/"@ + "osrelease"@);
    lemma_kernel_file("/proc/sys/kernel/osrelease"@, "osrelease"@);
    lemma_root_listable();
}

/// The root of the cgroup hierarchy may be listed.
proof fn lemma_root_listable()
    ensures
        may_list(CGROUP_ROOT@),
        components(CGROUP_ROOT@).len() == 4,
{
    reveal_strlit("/sys/fs/cgroup");
    reveal_strlit("/sys/fs");
    reveal_strlit("sys");
    reveal_strlit("fs");
    reveal_strlit("cgroup");
    reveal_strlit(".");
    reveal_strlit("..");
    let dir = "/sys/fs"@;
    assert(dir =~= seq!['/'] + "sys"@ + seq!['/'] + "fs"@);
    lemma_two_components(dir, "sys"@, "fs"@);
    assert(CGROUP_ROOT@ =~= dir + seq!['/'] + "cgroup"@);
    lemma_split_last(dir, '/', "cgroup"@);
    assert(components(CGROUP_ROOT@) =~= seq![Seq::<char>::empty(), "sys"@, "fs"@, "cgroup"@]);
    assert(is_plain("sys"@) && is_plain("cgroup"@));
    assert("fs"@[0] != ".."@[0]);
    assert(is_plain("fs"@));
}

/// The last part stands behind the last separator, and the other parts are those of
/// what precedes it.
proof fn lemma_unsplit_last(s: Seq<char>, sep: char) -> (init: Seq<char>)
    requires
        split_of(s, sep).len() >= 2,
    ensures
        s == init + seq![sep] + split_of(s, sep).last(),
        split_of(init, sep) == split_of(s, sep).drop_last(),
        !split_of(s, sep).last().contains(sep),
    decreases s.len(),
{
    let parts = split_of(s, sep);
    let rest = lemma_unsplit(s, sep);
    let first = parts[0];
    let below = split_of(rest, sep);
    assert(!first.contains(sep)) by {
        lemma_span(s, but(sep));
        if first.contains(sep) {
            let i = choose|i: int| 0 <= i < first.len() && first[i] == sep;
            assert(but(sep)(s[i]));
        }
    }
    if below.len() == 1 {
        lemma_split_count(rest, sep);
        lemma_span(rest, but(sep));
        assert(parts.last() == below[0]);
        assert(!rest.contains(sep)) by {
            if rest.contains(sep) {
                let i = choose|i: int| 0 <= i < rest.len() && rest[i] == sep;
                if span(rest, but(sep)) == rest.len() {
                    assert(but(sep)(rest[i]));
                } else {
                    lemma_split_count(rest.skip(span(rest, but(sep)) + 1), sep);
                }
            }
        }
        lemma_split_one(first, sep);
        assert(parts.drop_last() =~= seq![first]);
        first
    } else {
        let inner = lemma_unsplit_last(rest, sep);
        let init = first + seq![sep] + inner;
        assert(parts.last() == below.last());
        assert(s =~= init + seq![sep] + parts.last());
        lemma_split_first(first, sep, inner);
        assert(parts.drop_last() =~= seq![first] + below.drop_last());
        init
    }
}

/// What may be listed is the root of the cgroup hierarchy, and every directory that
/// is named, by anything but nothing and one or two dots, directly below one that
/// may be listed; nothing else.
pub proof fn law_what_may_be_listed(path: Seq<char>)
    ensures
        may_list(path) <==> path == "/sys/fs/cgroup"@ || exists|dir: Seq<char>, name: Seq<char>|
            may_list(dir) && name.len() > 0 && name != "."@ && name != ".."@ && !name.contains('/')
                && path == #[trigger] file_in_of(dir, name),
{
    reveal_strlit("/");
    assert("/"@ =~= seq!['/']);
    lemma_root_listable();
    if may_list(path) {
        let parts = components(path);
        lemma_below_root(path);
        if parts.len() == 4 {
            let a = lemma_unsplit(path, '/');
            let b = lemma_unsplit(a, '/');
            let c = lemma_unsplit(b, '/');
            lemma_split_count(c, '/');
            assert(split_of(c, '/') =~= parts.skip(3));
            reveal_strlit("/sys/fs/cgroup");
            reveal_strlit("sys");
            reveal_strlit("fs");
            reveal_strlit("cgroup");
            assert(path =~= "/sys/fs/cgroup"@);
        } else {
            let dir = lemma_unsplit_last(path, '/');
            let name = parts.last();
            let above = components(dir);
            assert(above =~= parts.drop_last());
            assert(is_plain(parts[parts.len() - 1]));
            assert forall|i: int| 1 <= i < above.len() implies is_plain(#[trigger] above[i]) by {
                assert(above[i] == parts[i]);
            }
            assert(may_list(dir));
            assert(path == file_in_of(dir, name));
        }
    }
    if exists|dir: Seq<char>, name: Seq<char>|
        may_list(dir) && name.len() > 0 && name != "."@ && name != ".."@ && !name.contains('/')
            && path == #[trigger] file_in_of(dir, name) {
        let (dir, name) = choose|dir: Seq<char>, name: Seq<char>|
            may_list(dir) && name.len() > 0 && name != "."@ && name != ".."@ && !name.contains('/')
                && path == #[trigger] file_in_of(dir, name);
        law_subdirectories_are_listable(dir, name);
    }
}

/// What may be read is nine files of the machine, the name of each process, and
/// fourteen files of each directory below the root of the cgroup hierarchy that may
/// be listed; nothing else.
pub proof fn law_what_may_be_read(path: Seq<char>)
    ensures
        may_read(path) <==> {
            ||| path == "/proc/uptime"@
            ||| path == "/proc/stat"@
            ||| path == "/proc/loadavg"@
            ||| path == "/proc/meminfo"@
            ||| path == "/proc/pressure/cpu"@
            ||| path == "/proc/pressure/memory"@
            ||| path == "/proc/pressure/io"@
            ||| path == "/proc/sys/kernel/hostname"@
            ||| path == "/proc/sys/kernel/osrelease"@
            ||| exists|pid: Seq<char>|
                pid.len() > 0 && (forall|i: int|
                    0 <= i < pid.len() ==> '0' <= #[trigger] pid[i] <= '9') && path
                    == #[trigger] comm_path_of(pid)
            ||| exists|dir: Seq<char>, name: Seq<char>|
                may_list(dir) && dir != "/sys/fs/cgroup"@ && is_one_of_the_files(name) && path
                    == #[trigger] file_in_of(dir, name)
        },
{
    reveal_strlit("/");
    assert("/"@ =~= seq!['/']);
    law_the_tools_may_read_what_they_read();
    let parts = components(path);
    if may_read(path) {
        if in_proc(parts) {
            lemma_proc_path(path);
        } else {
            let dir = lemma_unsplit_last(path, '/');
            let name = parts.last();
            let above = components(dir);
            assert(above =~= parts.drop_last());
            assert forall|i: int| 1 <= i < above.len() implies is_plain(#[trigger] above[i]) by {
                assert(above[i] == parts[i]);
            }
            assert(may_list(dir));
            lemma_root_listable();
            assert(is_one_of_the_files(name));
            assert(path == file_in_of(dir, name));
        }
    }
    if exists|pid: Seq<char>|
        pid.len() > 0 && (forall|i: int| 0 <= i < pid.len() ==> '0' <= #[trigger] pid[i] <= '9')
            && path == #[trigger] comm_path_of(pid) {
        let pid = choose|pid: Seq<char>|
            pid.len() > 0 && (forall|i: int| 0 <= i < pid.len() ==> '0' <= #[trigger] pid[i] <= '9')
                && path == #[trigger] comm_path_of(pid);
        law_comm_is_readable(pid);
    }
    if exists|dir: Seq<char>, name: Seq<char>|
        may_list(dir) && dir != "/sys/fs/cgroup"@ && is_one_of_the_files(name) && path
            == #[trigger] file_in_of(dir, name) {
        let (dir, name) = choose|dir: Seq<char>, name: Seq<char>|
            may_list(dir) && dir != "/sys/fs/cgroup"@ && is_one_of_the_files(name) && path
                == #[trigger] file_in_of(dir, name);
        lemma_cgroup_file(name);
        law_files_of_a_cgroup(dir, name);
    }
}

/// The fourteen files of a container that its health and its identity come from.
pub open spec fn is_one_of_the_files(name: Seq<char>) -> bool {
    ||| name == "cgroup.procs"@
    ||| name == "cpu.stat"@
    ||| name == "cpu.max"@
    ||| name == "cpu.weight"@
    ||| name == "cpu.pressure"@
    ||| name == "memory.current"@
    ||| name == "memory.max"@
    ||| name == "memory.high"@
    ||| name == "memory.swap.current"@
    ||| name == "memory.events"@
    ||| name == "memory.pressure"@
    ||| name == "pids.current"@
    ||| name == "pids.max"@
    ||| name == "io.pressure"@
}

/// A path of one of the shapes under `/proc` is one of nine, or holds the name of a
/// process.
proof fn lemma_proc_path(path: Seq<char>)
    requires
        is_sound(components(path)),
        in_proc(components(path)),
    ensures
        ({
            ||| path == "/proc/uptime"@
            ||| path == "/proc/stat"@
            ||| path == "/proc/loadavg"@
            ||| path == "/proc/meminfo"@
            ||| path == "/proc/pressure/cpu"@
            ||| path == "/proc/pressure/memory"@
            ||| path == "/proc/pressure/io"@
            ||| path == "/proc/sys/kernel/hostname"@
            ||| path == "/proc/sys/kernel/osrelease"@
            ||| exists|pid: Seq<char>|
                pid.len() > 0 && (forall|i: int|
                    0 <= i < pid.len() ==> '0' <= #[trigger] pid[i] <= '9') && path
                    == #[trigger] comm_path_of(pid)
        }),
{
    reveal_strlit("/proc/uptime");
    reveal_strlit("/proc/stat");
    reveal_strlit("/proc/loadavg");
    reveal_strlit("/proc/meminfo");
    reveal_strlit("/proc/pressure/cpu");
    reveal_strlit("/proc/pressure/memory");
    reveal_strlit("/proc/pressure/io");
    reveal_strlit("/proc/sys/kernel/hostname");
    reveal_strlit("/proc/sys/kernel/osrelease");
    reveal_strlit("/proc/");
    reveal_strlit("proc");
    reveal_strlit("pressure");
    reveal_strlit("sys");
    reveal_strlit("kernel");
    reveal_strlit("comm");
    reveal_strlit("/comm");
    reveal_strlit("uptime");
    reveal_strlit("stat");
    reveal_strlit("loadavg");
    reveal_strlit("meminfo");
    reveal_strlit("cpu");
    reveal_strlit("memory");
    reveal_strlit("io");
    reveal_strlit("hostname");
    reveal_strlit("osrelease");
    let parts = components(path);
    let a = lemma_unsplit(path, '/');
    let b = lemma_unsplit(a, '/');
    let below = split_of(b, '/');
    assert(below =~= parts.skip(2));
    lemma_split_count(b, '/');
    assert(path =~= "/proc/"@ + b);
    if parts.len() == 3 {
        assert(b == parts[2]);
        if b == "uptime"@ {
            assert(path =~= "/proc/uptime"@);
        } else if b == "stat"@ {
            assert(path =~= "/proc/stat"@);
        } else if b == "loadavg"@ {
            assert(path =~= "/proc/loadavg"@);
        } else {
            assert(path =~= "/proc/meminfo"@);
        }
    } else if parts.len() == 4 {
        let c = lemma_unsplit(b, '/');
        lemma_split_count(c, '/');
        assert(split_of(c, '/') =~= parts.skip(3));
        assert(c == parts[3]);
        assert(b == parts[2] + seq!['/'] + c);
        if is_pid(parts[2]) && parts[3] == "comm"@ {
            let pid = parts[2];
            assert(path =~= comm_path_of(pid));
            assert forall|i: int| 0 <= i < pid.len() implies '0' <= #[trigger] pid[i] <= '9' by {
                assert(is_digit(pid[i]));
            }
        } else if c == "cpu"@ {
            assert(path =~= "/proc/pressure/cpu"@);
        } else if c == "memory"@ {
            assert(path =~= "/proc/pressure/memory"@);
        } else {
            assert(path =~= "/proc/pressure/io"@);
        }
    } else {
        let c = lemma_unsplit(b, '/');
        let d = lemma_unsplit(c, '/');
        lemma_split_count(d, '/');
        assert(split_of(d, '/') =~= parts.skip(4));
        assert(d == parts[4]);
        if d == "hostname"@ {
            assert(path =~= "/proc/sys/kernel/hostname"@);
        } else {
            assert(path =~= "/proc/sys/kernel/osrelease"@);
        }
    }
}

} // verus!
