//! Basic identity of a machine.
use vstd::prelude::*;

use crate::fault::{Fault, FaultView};
use crate::guard::law_the_tools_may_read_what_they_read;
use crate::proc::{outcome_view, read, read_of, result_view, ReadFailure};
use crate::text::{is_white, law_trimming_strips_the_ends};

verus! {

broadcast use vstd::string::group_string_axioms;

/// Normalized identity of a machine.
pub struct SystemInfo {
    /// Echoes the requested target.
    pub target: String,
    pub hostname: String,
    pub kernel_release: String,
    pub os: &'static str,
    pub arch: &'static str,
}

/// Identity with its strings taken as characters.
pub struct SystemInfoView {
    pub target: Seq<char>,
    pub hostname: Seq<char>,
    pub kernel_release: Seq<char>,
    pub os: Seq<char>,
    pub arch: Seq<char>,
}

impl View for SystemInfo {
    type V = SystemInfoView;

    open spec fn view(&self) -> SystemInfoView {
        SystemInfoView {
            target: self.target@,
            hostname: self.hostname@,
            kernel_release: self.kernel_release@,
            os: self.os@,
            arch: self.arch@,
        }
    }
}

/// The identity of a machine, given what reading the two files gave. Where both
/// are at fault, the first is the one that is named.
pub open spec fn system_info_of(
    target: Seq<char>,
    hostname: Result<Seq<char>, Seq<char>>,
    osrelease: Result<Seq<char>, Seq<char>>,
    os: Seq<char>,
    arch: Seq<char>,
) -> Result<SystemInfoView, FaultView> {
    match (
        read_of("/proc/sys/kernel/hostname"@, hostname),
        read_of("/proc/sys/kernel/osrelease"@, osrelease),
    ) {
        (Err(fault), _) => Err(fault),
        (_, Err(fault)) => Err(fault),
        (Ok(hostname), Ok(kernel_release)) => Ok(
            SystemInfoView { target, hostname, kernel_release, os, arch },
        ),
    }
}

/// Collect identity, given what reading the two files gave and the system that
/// this program was built for.
pub fn collect(
    target: String,
    hostname: Result<String, ReadFailure>,
    osrelease: Result<String, ReadFailure>,
    os: &'static str,
    arch: &'static str,
) -> (r: Result<SystemInfo, Fault>)
    ensures
        result_view(r) == system_info_of(
            target@,
            outcome_view(hostname),
            outcome_view(osrelease),
            os@,
            arch@,
        ),
{
    proof {
        law_the_tools_may_read_what_they_read();
    }
    let hostname = match read("/proc/sys/kernel/hostname", hostname) {
        Ok(text) => text,
        Err(fault) => {
            return Err(fault);
        },
    };
    let kernel_release = match read("/proc/sys/kernel/osrelease", osrelease) {
        Ok(text) => text,
        Err(fault) => {
            return Err(fault);
        },
    };
    Ok(SystemInfo { target, hostname, kernel_release, os, arch })
}

/// Identity is what the two files hold, whitespace at their ends aside, each under
/// its own name, with the target and the system that were given.
pub proof fn law_identity_is_what_the_files_hold(
    target: Seq<char>,
    hostname: Seq<char>,
    release: Seq<char>,
    os: Seq<char>,
    arch: Seq<char>,
    end: Seq<char>,
)
    requires
        forall|i: int| 0 <= i < end.len() ==> is_white(#[trigger] end[i]),
        hostname.len() > 0 && !is_white(hostname[0]) && !is_white(hostname.last()),
        release.len() > 0 && !is_white(release[0]) && !is_white(release.last()),
    ensures
        system_info_of(target, Ok(hostname + end), Ok(release + end), os, arch) == Ok::<
            _,
            FaultView,
        >(SystemInfoView { target, hostname, kernel_release: release, os, arch }),
{
    let nothing = Seq::<char>::empty();
    law_trimming_strips_the_ends(nothing, hostname, end);
    law_trimming_strips_the_ends(nothing, release, end);
    assert(nothing + hostname + end =~= hostname + end);
    assert(nothing + release + end =~= release + end);
}

/// Where the hostname cannot be read, that is the answer; where only the release
/// cannot be, that is.
pub proof fn law_identity_needs_both_files(
    target: Seq<char>,
    content: Seq<char>,
    detail: Seq<char>,
    other: Result<Seq<char>, Seq<char>>,
    os: Seq<char>,
    arch: Seq<char>,
)
    ensures
        system_info_of(target, Err(detail), other, os, arch) == Err::<SystemInfoView, _>(
            FaultView::Unreadable { path: "/proc/sys/kernel/hostname"@, detail },
        ),
        system_info_of(target, Ok(content), Err(detail), os, arch) == Err::<SystemInfoView, _>(
            FaultView::Unreadable { path: "/proc/sys/kernel/osrelease"@, detail },
        ),
{
}

/// Identity is shown with its own strings.
pub proof fn law_identity_shows_its_strings(info: SystemInfo)
    ensures
        info@ == (SystemInfoView {
            target: info.target@,
            hostname: info.hostname@,
            kernel_release: info.kernel_release@,
            os: info.os@,
            arch: info.arch@,
        }),
{
}

} // verus!
