//! The containers of a machine, with enough identity to pick one.
//!
//! Process names are here rather than left to the health of each container, because
//! the alternative is asking for the health of every container to find the one
//! that is wanted.
use vstd::prelude::*;

use crate::cgroup::Found;
use crate::discovery::texts;

verus! {

/// One container.
pub struct Container {
    /// The container ID as the kernel knows it.
    pub id: String,
    /// Which runtime created the container.
    pub runtime: &'static str,
    /// Distinct names of the processes running in the container.
    pub processes: Vec<String>,
}

/// A container with its strings taken as characters.
pub struct ContainerView {
    pub id: Seq<char>,
    pub runtime: Seq<char>,
    pub processes: Seq<Seq<char>>,
}

impl View for Container {
    type V = ContainerView;

    open spec fn view(&self) -> ContainerView {
        ContainerView {
            id: self.id@,
            runtime: self.runtime@,
            processes: texts(self.processes@),
        }
    }
}

/// The containers found on a target.
pub struct ContainerList {
    /// Echoes the requested target.
    pub target: String,
    /// Wall-clock time of this reading by the target's own clock.
    pub collected_at: String,
    /// How many containers were found.
    pub count: usize,
    pub containers: Vec<Container>,
}

/// The containers of a list, each with its strings taken as characters.
pub open spec fn containers_view(v: Seq<Container>) -> Seq<ContainerView> {
    Seq::new(v.len(), |i: int| v[i]@)
}

/// The list of what was found, in the order in which it was found: each container
/// with the names of its own processes, and none of its path.
pub open spec fn listing_of(found: Seq<(Found, Vec<String>)>) -> Seq<ContainerView> {
    Seq::new(
        found.len(),
        |i: int|
            ContainerView {
                id: found[i].0.id@,
                runtime: found[i].0.runtime@,
                processes: texts(found[i].1@),
            },
    )
}

/// Collect the container list, given what was found, each container with the names
/// of its processes.
pub fn collect(
    target: String,
    collected_at: String,
    found: Vec<(Found, Vec<String>)>,
) -> (r: ContainerList)
    ensures
        r.target == target,
        r.collected_at == collected_at,
        r.count == found@.len(),
        r.count == r.containers@.len(),
        containers_view(r.containers@) == listing_of(found@),
{
    let count: usize = found.len();
    let ghost all = found@;
    let mut containers: Vec<Container> = Vec::new();
    for pair in it: found
        invariant
            it.seq() == all,
            containers_view(containers@) == listing_of(all).take(it.index()),
    {
        let (f, processes) = pair;
        let c = Container { id: f.id, runtime: f.runtime, processes };
        assert(containers_view(containers@.push(c)) =~= containers_view(containers@).push(c@));
        assert(listing_of(all).take(it.index() + 1) =~= listing_of(all).take(it.index()).push(c@));
        containers.push(c);
    }
    assert(listing_of(all).take(all.len() as int) =~= listing_of(all));
    assert(containers_view(containers@).len() == containers@.len());
    ContainerList { target, collected_at, count, containers }
}

/// The list has one entry for each container found, in the same order, with the ID
/// and the runtime of that container and the names of its own processes.
pub proof fn law_each_container_is_listed(found: Seq<(Found, Vec<String>)>, listed: Seq<Container>)
    ensures
        listing_of(found).len() == found.len(),
        forall|i: int|
            0 <= i < found.len() ==> {
                let entry = #[trigger] listing_of(found)[i];
                &&& entry.id == found[i].0.id@
                &&& entry.runtime == found[i].0.runtime@
                &&& entry.processes.len() == found[i].1@.len()
                &&& forall|k: int|
                    0 <= k < found[i].1@.len() ==> #[trigger] entry.processes[k] == found[i].1@[k]@
            },
        containers_view(listed).len() == listed.len(),
        forall|i: int|
            0 <= i < listed.len() ==> {
                let entry = #[trigger] containers_view(listed)[i];
                &&& entry.id == listed[i].id@
                &&& entry.runtime == listed[i].runtime@
                &&& entry.processes.len() == listed[i].processes@.len()
                &&& forall|k: int|
                    0 <= k < listed[i].processes@.len() ==> #[trigger] entry.processes[k]
                        == listed[i].processes@[k]@
            },
{
}

} // verus!
