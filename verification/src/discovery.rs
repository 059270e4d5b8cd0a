//! Finding the containers of a machine by walking its cgroup hierarchy.
//!
//! The walk is a state machine. [`Discovery::pending`] names the directory to
//! list next, [`Discovery::listed`] takes what listing it gave, and
//! [`Discovery::finish`] hands out what was found. The caller does the listing. A
//! directory that the guard refuses counts as one that could not be listed,
//! whatever listing it gave.
use vstd::prelude::*;

use crate::cgroup::{
    classify, classify_of, container_id, file_in_of, is_container_id, is_hex,
    law_a_file_is_behind_a_slash, law_a_scope_is_recognized, law_classify_is_sound,
    law_classify_reads_back, law_only_scopes_are_recognized, scope_prefix, Found, FoundView,
};
use crate::guard::{check_dir, may_list};
use crate::order::{in_order, text_le};
use crate::text::{before, char_vec, same};

verus! {

broadcast use vstd::string::group_string_axioms;

/// Where the cgroup hierarchy is mounted.
pub const CGROUP_ROOT: &'static str = "/sys/fs/cgroup";

/// How deep the walk descends below [`CGROUP_ROOT`].
///
/// Kubernetes nests deepest of the known layouts: a QoS slice, a pod slice, then
/// the container scope. The bound keeps a pathological hierarchy from turning
/// discovery into an unbounded walk.
pub const MAX_DEPTH: usize = 6;

/// The characters of each string of a list.
pub open spec fn texts(v: Seq<String>) -> Seq<Seq<char>> {
    Seq::new(v.len(), |i: int| v[i]@)
}

/// The containers of a list, each with its strings taken as characters.
pub open spec fn founds(v: Seq<Found>) -> Seq<FoundView> {
    Seq::new(v.len(), |i: int| v[i]@)
}

/// What follows the last slash of `path`: all of it where there is none.
pub open spec fn base_name_of(path: Seq<char>) -> Seq<char>
    decreases path.len(),
{
    if path.len() == 0 || path.last() == '/' {
        Seq::empty()
    } else {
        base_name_of(path.drop_last()).push(path.last())
    }
}

/// What precedes the last slash of `path`: nothing where there is none.
pub open spec fn parent_of(path: Seq<char>) -> Seq<char>
    decreases path.len(),
{
    if path.len() == 0 {
        Seq::empty()
    } else if path.last() == '/' {
        path.drop_last()
    } else {
        parent_of(path.drop_last())
    }
}

/// The runtime and the container ID that the directory `path` stands for.
///
/// Most runtimes name a scope after the container. Docker with the cgroupfs driver
/// puts a directory that is named by the ID alone below one named `docker`.
pub open spec fn recognized(path: Seq<char>) -> Option<(Seq<char>, Seq<char>)> {
    match classify_of(base_name_of(path)) {
        Some(found) => Some(found),
        None => if is_container_id(base_name_of(path)) && base_name_of(parent_of(path))
            == "docker"@ {
            Some(("docker"@, base_name_of(path)))
        } else {
            None
        },
    }
}

/// The container that the directory `path` is, if it is one.
pub open spec fn container_at(path: Seq<char>) -> Option<FoundView> {
    match recognized(path) {
        Some((runtime, id)) => Some(FoundView { id, runtime, path }),
        None => None,
    }
}

/// The containers among `paths`, in order.
pub open spec fn containers_in(paths: Seq<Seq<char>>) -> Seq<FoundView>
    decreases paths.len(),
{
    if paths.len() == 0 {
        Seq::empty()
    } else {
        let rest = containers_in(paths.drop_last());
        match container_at(paths.last()) {
            Some(f) => rest.push(f),
            None => rest,
        }
    }
}

/// The directories among `paths` that are not containers, in order.
pub open spec fn others_in(paths: Seq<Seq<char>>) -> Seq<Seq<char>>
    decreases paths.len(),
{
    if paths.len() == 0 {
        Seq::empty()
    } else {
        let rest = others_in(paths.drop_last());
        if container_at(paths.last()) is None {
            rest.push(paths.last())
        } else {
            rest
        }
    }
}

/// `sorted` with `f` put behind everything whose path is not after its own.
pub open spec fn insert_by_path(sorted: Seq<FoundView>, f: FoundView) -> Seq<FoundView>
    decreases sorted.len(),
{
    if sorted.len() == 0 || text_le(sorted.last().path, f.path) {
        sorted.push(f)
    } else {
        insert_by_path(sorted.drop_last(), f).push(sorted.last())
    }
}

/// `s` in order of path. Of two with the same path the earlier stays first.
pub open spec fn sorted_by_path(s: Seq<FoundView>) -> Seq<FoundView>
    decreases s.len(),
{
    if s.len() == 0 {
        Seq::empty()
    } else {
        insert_by_path(sorted_by_path(s.drop_last()), s.last())
    }
}

/// What listing `dir` counts for: nothing where it could not be listed, and
/// nothing where the guard refuses it.
pub open spec fn admitted(dir: Seq<char>, children: Option<Seq<Seq<char>>>) -> Seq<Seq<char>> {
    match children {
        Some(paths) => if may_list(dir) {
            paths
        } else {
            Seq::empty()
        },
        None => Seq::empty(),
    }
}

/// The state of a walk.
pub struct Walk {
    /// Levels of the hierarchy still to list, the current one counted.
    pub levels: int,
    /// Directories of the current level still to list.
    pub frontier: Seq<Seq<char>>,
    /// Directories of the next level seen so far.
    pub next: Seq<Seq<char>>,
    /// Containers found so far.
    pub found: Seq<FoundView>,
}

impl Walk {
    /// The walk before anything is listed.
    pub open spec fn start() -> Walk {
        Walk {
            levels: MAX_DEPTH as int,
            frontier: seq![CGROUP_ROOT@],
            next: Seq::empty(),
            found: Seq::empty(),
        }
    }

    /// The directory to list next: none when the walk is over.
    pub open spec fn pending(self) -> Option<Seq<char>> {
        if self.levels > 0 && self.frontier.len() > 0 {
            Some(self.frontier[0])
        } else {
            None
        }
    }

    /// The walk after the pending directory was listed. A directory that could
    /// not be listed, or may not be, counts as an empty one. Containers are not
    /// descended into.
    pub open spec fn step(self, children: Option<Seq<Seq<char>>>) -> Walk {
        let kids = admitted(self.frontier[0], children);
        let frontier = self.frontier.drop_first();
        let next = self.next + others_in(kids);
        let found = self.found + containers_in(kids);
        if frontier.len() == 0 {
            Walk { levels: self.levels - 1, frontier: next, next: Seq::empty(), found }
        } else {
            Walk { levels: self.levels, frontier, next, found }
        }
    }
}

/// What follows the last slash of `path`.
pub fn base_name<'a>(path: &'a str) -> (r: &'a str)
    ensures
        r@ == base_name_of(path@),
{
    let v = char_vec(path);
    let total: usize = v.len();
    let mut start: usize = total;
    assert(path@.take(total as int) == path@);
    assert(path@.subrange(total as int, total as int) == Seq::<char>::empty());
    assert(base_name_of(path@.take(start as int)) + Seq::<char>::empty() == base_name_of(path@));
    while start > 0 && v[start - 1] != '/'
        invariant
            start <= total,
            total == v@.len(),
            v@ == path@,
            base_name_of(path@.take(start as int)) + path@.subrange(start as int, total as int)
                == base_name_of(path@),
        decreases start,
    {
        proof {
            let t = path@.take(start as int);
            assert(t.drop_last() == path@.take(start - 1));
            assert(t.last() == path@[start - 1]);
            assert(base_name_of(t.drop_last()).push(t.last()) + path@.subrange(
                start as int,
                total as int,
            ) == base_name_of(path@.take(start - 1)) + path@.subrange(start - 1, total as int));
        }
        start = start - 1;
    }
    proof {
        let t = path@.take(start as int);
        assert(base_name_of(t) == Seq::<char>::empty());
        assert(Seq::<char>::empty() + path@.subrange(start as int, total as int) == path@.subrange(
            start as int,
            total as int,
        ));
    }
    path.substring_char(start, total)
}

/// The parent of a path stands before its last slash.
proof fn lemma_parent_of(path: Seq<char>)
    ensures
        parent_of(path).len() <= path.len(),
        ({
            let n = base_name_of(path).len();
            &&& n <= path.len()
            &&& path.skip(path.len() - n) == base_name_of(path)
            &&& parent_of(path) == path.take(
                if n < path.len() {
                    path.len() - n - 1
                } else {
                    0
                },
            )
        }),
    decreases path.len(),
{
    if path.len() > 0 {
        let init = path.drop_last();
        if path.last() == '/' {
            assert(path.skip(path.len() as int) =~= base_name_of(path));
            assert(path.take(path.len() - 1) =~= init);
        } else {
            lemma_parent_of(init);
            let n = base_name_of(init).len();
            assert(path.skip(path.len() - n - 1) =~= base_name_of(path));
            assert(parent_of(path) =~= path.take(
                if n + 1 < path.len() {
                    path.len() - n - 2
                } else {
                    0
                },
            ));
        }
    } else {
        assert(path.take(0) =~= path);
        assert(path.skip(0) =~= path);
    }
}

/// What precedes the last slash of `path`.
pub fn parent<'a>(path: &'a str) -> (r: &'a str)
    ensures
        r@ == parent_of(path@),
{
    proof {
        lemma_parent_of(path@);
    }
    let total: usize = char_vec(path).len();
    let name: usize = char_vec(base_name(path)).len();
    let stop: usize = if name < total {
        total - name - 1
    } else {
        0
    };
    assert(path@.subrange(0, stop as int) =~= path@.take(stop as int));
    path.substring_char(0, stop)
}

/// Recognize a container from the path of its cgroup directory.
pub fn recognize(path: &str) -> (r: Option<(&'static str, String)>)
    ensures
        match r {
            Some((runtime, id)) => recognized(path@) == Some((runtime@, id@)),
            None => recognized(path@) is None,
        },
{
    let name = base_name(path);
    match classify(name) {
        Some(found) => Some(found),
        None => if container_id(name) && same(base_name(parent(path)), "docker") {
            Some(("docker", name.to_owned()))
        } else {
            None
        },
    }
}

/// A walk over the cgroup hierarchy.
pub struct Discovery {
    levels: usize,
    frontier: Vec<String>,
    next: Vec<String>,
    found: Vec<Found>,
}

impl View for Discovery {
    type V = Walk;

    closed spec fn view(&self) -> Walk {
        Walk {
            levels: self.levels as int,
            frontier: texts(self.frontier@),
            next: texts(self.next@),
            found: founds(self.found@),
        }
    }
}

impl Discovery {
    /// A walk that has listed nothing yet.
    pub fn start() -> (r: Discovery)
        ensures
            r@ == Walk::start(),
    {
        let mut frontier: Vec<String> = Vec::new();
        frontier.push(CGROUP_ROOT.to_owned());
        let r = Discovery { levels: MAX_DEPTH, frontier, next: Vec::new(), found: Vec::new() };
        assert(r@.frontier =~= Walk::start().frontier);
        assert(r@.next =~= Walk::start().next);
        assert(r@.found =~= Walk::start().found);
        r
    }

    /// The directory to list next: none when the walk is over.
    pub fn pending(&self) -> (r: Option<&str>)
        ensures
            match r {
                Some(dir) => self@.pending() == Some(dir@),
                None => self@.pending() is None,
            },
    {
        if self.levels > 0 && self.frontier.len() > 0 {
            assert(texts(self.frontier@)[0] == self.frontier@[0]@);
            Some(self.frontier[0].as_str())
        } else {
            None
        }
    }

    /// Go on with what listing the pending directory gave: the paths of its
    /// subdirectories, or nothing where it could not be listed. What the guard
    /// refuses to list counts for nothing.
    pub fn listed(&mut self, children: Option<Vec<String>>)
        requires
            old(self)@.pending() is Some,
        ensures
            final(self)@ == old(self)@.step(
                match children {
                    Some(paths) => Some(texts(paths@)),
                    None => None,
                },
            ),
    {
        let ghost before = self@;
        assert(before.frontier[0] == self.frontier@[0]@);
        let allowed = check_dir(self.frontier[0].as_str());
        let kids: Vec<String> = match children {
            Some(paths) => if allowed {
                paths
            } else {
                Vec::new()
            },
            None => Vec::new(),
        };
        let ghost paths = texts(kids@);
        assert(paths =~= admitted(
            before.frontier[0],
            match children {
                Some(given) => Some(texts(given@)),
                None => None,
            },
        ));
        self.frontier.remove(0);
        assert(texts(self.frontier@) =~= before.frontier.drop_first());
        let mut i: usize = 0;
        proof {
            assert(paths.take(0) =~= Seq::empty());
            assert(texts(self.next@) =~= before.next + Seq::empty());
            assert(founds(self.found@) =~= before.found + Seq::empty());
        }
        while i < kids.len()
            invariant
                i <= kids@.len(),
                paths == texts(kids@),
                self.levels == before.levels,
                texts(self.frontier@) == before.frontier.drop_first(),
                texts(self.next@) == before.next + others_in(paths.take(i as int)),
                founds(self.found@) == before.found + containers_in(paths.take(i as int)),
            decreases kids@.len() - i,
        {
            let child = kids[i].as_str();
            proof {
                assert(paths.take(i + 1).drop_last() == paths.take(i as int));
                assert(paths.take(i + 1).last() == child@);
            }
            match recognize(child) {
                Some((runtime, id)) => {
                    let f = Found { id, runtime, path: child.to_owned() };
                    assert(container_at(child@) == Some(f@));
                    assert(founds(self.found@.push(f)) =~= founds(self.found@).push(f@));
                    assert(before.found + containers_in(paths.take(i as int)).push(f@) =~= (
                    before.found + containers_in(paths.take(i as int))).push(f@));
                    self.found.push(f);
                },
                None => {
                    let dir = child.to_owned();
                    assert(texts(self.next@.push(dir)) =~= texts(self.next@).push(child@));
                    assert(before.next + others_in(paths.take(i as int)).push(child@) =~= (
                    before.next + others_in(paths.take(i as int))).push(child@));
                    self.next.push(dir);
                },
            }
            i = i + 1;
        }
        assert(paths.take(i as int) =~= paths);
        if self.frontier.len() == 0 {
            let mut level: Vec<String> = Vec::new();
            std::mem::swap(&mut level, &mut self.next);
            self.frontier = level;
            self.levels = self.levels - 1;
            assert(texts(self.next@) =~= Seq::empty());
        }
    }

    /// What was found, in order of path, once the walk is over.
    pub fn finish(self) -> (r: Vec<Found>)
        requires
            self@.pending() is None,
        ensures
            founds(r@) == sorted_by_path(self@.found),
    {
        sort_by_path(self.found)
    }
}

/// Where `insert_by_path` puts `f`.
proof fn lemma_insert_by_path(sorted: Seq<FoundView>, f: FoundView, p: int)
    requires
        0 <= p <= sorted.len(),
        p > 0 ==> text_le(sorted[p - 1].path, f.path),
        forall|k: int| p <= k < sorted.len() ==> !text_le(#[trigger] sorted[k].path, f.path),
    ensures
        insert_by_path(sorted, f) == sorted.insert(p, f),
    decreases sorted.len(),
{
    if p == sorted.len() {
        assert(sorted.insert(p, f) =~= sorted.push(f));
    } else {
        let n = sorted.len() - 1;
        assert(!text_le(sorted[n].path, f.path));
        lemma_insert_by_path(sorted.drop_last(), f, p);
        assert(sorted.insert(p, f) =~= sorted.drop_last().insert(p, f).push(sorted.last()));
    }
}

/// Put containers in order of path. Of two with the same path the earlier stays
/// first.
fn sort_by_path(items: Vec<Found>) -> (r: Vec<Found>)
    ensures
        founds(r@) == sorted_by_path(founds(items@)),
{
    let ghost all = founds(items@);
    let mut r: Vec<Found> = Vec::new();
    assert(founds(r@) =~= Seq::empty());
    assert(all.take(0) =~= Seq::empty());
    for f in it: items
        invariant
            all == founds(it.seq()),
            founds(r@) == sorted_by_path(all.take(it.index())),
    {
        let mut p: usize = r.len();
        let ghost s = founds(r@);
        while p > 0 && !in_order(r[p - 1].path.as_str(), f.path.as_str())
            invariant
                p <= r@.len(),
                s == founds(r@),
                forall|k: int| p <= k < r@.len() ==> !text_le(#[trigger] s[k].path, f@.path),
            decreases p,
        {
            assert(s[p - 1] == r@[p - 1]@);
            p = p - 1;
        }
        proof {
            let n = it.index();
            assert(all.take(n + 1).drop_last() =~= all.take(n));
            assert(all.take(n + 1).last() == f@);
            if p > 0 {
                assert(s[p - 1] == r@[p - 1]@);
            }
            lemma_insert_by_path(s, f@, p as int);
            assert(founds(r@.insert(p as int, f)) =~= s.insert(p as int, f@));
        }
        r.insert(p, f);
    }
    assert(all.take(all.len() as int) =~= all);
    r
}

/// The name and the parent of a path with a slash before its name.
proof fn lemma_file_in(dir: Seq<char>, name: Seq<char>)
    requires
        !name.contains('/'),
    ensures
        base_name_of(file_in_of(dir, name)) == name,
        parent_of(file_in_of(dir, name)) == dir,
    decreases name.len(),
{
    reveal_strlit("/");
    let path = file_in_of(dir, name);
    if name.len() == 0 {
        assert(path.last() == '/');
        assert(path.drop_last() =~= dir);
        assert(base_name_of(path) =~= name);
    } else {
        let init = name.drop_last();
        assert(!init.contains('/')) by {
            if init.contains('/') {
                let i = choose|i: int| 0 <= i < init.len() && init[i] == '/';
                assert(name[i] == '/');
            }
        }
        lemma_file_in(dir, init);
        assert(path.last() == name.last());
        assert(name.contains(name.last()));
        assert(path.drop_last() =~= file_in_of(dir, init));
        assert(base_name_of(path) =~= name);
    }
}

/// A container ID has no slash in it.
proof fn lemma_id_has_no_slash(id: Seq<char>)
    requires
        is_container_id(id),
    ensures
        !id.contains('/'),
{
    if id.contains('/') {
        let i = choose|i: int| 0 <= i < id.len() && id[i] == '/';
        assert(is_hex(id[i]));
    }
}

/// The scope that a runtime names after a container is that container, wherever it
/// stands.
pub proof fn law_a_scope_is_a_container(dir: Seq<char>, runtime: Seq<char>, id: Seq<char>)
    requires
        scope_prefix(runtime) is Some,
        is_container_id(id),
    ensures
        ({
            let path = file_in_of(dir, scope_prefix(runtime)->0 + id + ".scope"@);
            container_at(path) == Some(FoundView { id, runtime, path })
        }),
{
    reveal_strlit("docker-");
    reveal_strlit("libpod-");
    reveal_strlit("cri-containerd-");
    reveal_strlit("crio-");
    reveal_strlit(".scope");
    let prefix = scope_prefix(runtime)->0;
    let name = prefix + id + ".scope"@;
    lemma_id_has_no_slash(id);
    assert(!name.contains('/')) by {
        if name.contains('/') {
            let i = choose|i: int| 0 <= i < name.len() && name[i] == '/';
            if i < prefix.len() {
                assert(prefix[i] == '/');
            } else if i < prefix.len() + id.len() {
                assert(id[i - prefix.len()] == '/');
            } else {
                assert(".scope"@[i - prefix.len() - id.len()] == '/');
            }
        }
    }
    lemma_file_in(dir, name);
    law_classify_reads_back(runtime, id);
}

/// A directory named by an ID alone is a container of Docker where it stands
/// directly below one named `docker`, and no container anywhere else.
pub proof fn law_an_id_below_docker_is_a_container(dir: Seq<char>, id: Seq<char>)
    requires
        is_container_id(id),
    ensures
        ({
            let path = file_in_of(dir, id);
            container_at(path) == if base_name_of(dir) == "docker"@ {
                Some(FoundView { id, runtime: "docker"@, path })
            } else {
                None
            }
        }),
{
    lemma_id_has_no_slash(id);
    lemma_file_in(dir, id);
    lemma_id_is_no_scope(id);
}

/// A container ID is not the name of a scope.
proof fn lemma_id_is_no_scope(id: Seq<char>)
    requires
        is_container_id(id),
    ensures
        classify_of(id) is None,
{
    reveal_strlit(".scope");
    match before(id, ".scope"@) {
        Some(base) => {
            let n = id.len() - ".scope"@.len();
            assert(id.skip(n)[0] == id[n]);
            assert(".scope"@[0] == '.');
            assert(is_hex(id[n]));
        },
        None => {},
    }
}

/// The directory `docker` at the root of the hierarchy is named so, and is no
/// container itself.
pub proof fn lemma_docker_directory()
    ensures
        base_name_of(file_in_of(CGROUP_ROOT@, "docker"@)) == "docker"@,
        container_at(file_in_of(CGROUP_ROOT@, "docker"@)) is None,
{
    reveal_strlit("docker");
    reveal_strlit(".scope");
    lemma_file_in(CGROUP_ROOT@, "docker"@);
    match before("docker"@, ".scope"@) {
        Some(base) => {
            assert("docker"@.skip(0)[0] == ".scope"@[0]);
        },
        None => {},
    }
}

/// What is recognized as a container has a container ID, under a runtime that is
/// known, and its directory is named after it.
pub proof fn law_a_container_is_named_by_its_id(path: Seq<char>)
    ensures
        container_at(path) matches Some(f) ==> {
            &&& f.path == path
            &&& is_container_id(f.id)
            &&& scope_prefix(f.runtime) is Some
            &&& base_name_of(path) == scope_prefix(f.runtime)->0 + f.id + ".scope"@
                || base_name_of(path) == f.id && f.runtime == "docker"@ && base_name_of(
                parent_of(path),
            ) == "docker"@
        },
{
    match classify_of(base_name_of(path)) {
        Some((runtime, id)) => {
            law_classify_is_sound(base_name_of(path), runtime, id);
        },
        None => {},
    }
}

/// The name of a path is what follows its last slash and its parent what precedes
/// it.
pub proof fn law_names_and_parents(dir: Seq<char>, name: Seq<char>)
    requires
        !name.contains('/'),
    ensures
        base_name_of(dir + seq!['/'] + name) == name,
        parent_of(dir + seq!['/'] + name) == dir,
        base_name_of(name) == name,
        parent_of(name) == Seq::<char>::empty(),
    decreases name.len(),
{
    law_a_file_is_behind_a_slash(dir, name);
    lemma_file_in(dir, name);
    if name.len() > 0 {
        let init = name.drop_last();
        assert(!init.contains('/')) by {
            if init.contains('/') {
                let i = choose|i: int| 0 <= i < init.len() && init[i] == '/';
                assert(name[i] == '/');
            }
        }
        law_names_and_parents(dir, init);
        assert(name.contains(name.last()));
        assert(base_name_of(name) =~= name);
    } else {
        assert(base_name_of(name) =~= name);
    }
}

/// Wherever it stands, a scope that one of the four runtimes names after a container
/// is that container, and so is a directory named by an ID alone below `docker`.
pub proof fn law_every_layout_is_recognized(dir: Seq<char>, id: Seq<char>)
    requires
        id.len() >= 12,
        forall|i: int|
            0 <= i < id.len() ==> '0' <= #[trigger] id[i] <= '9' || 'a' <= id[i] <= 'f' || 'A'
                <= id[i] <= 'F',
    ensures
        ({
            let path = dir + seq!['/'] + ("docker-"@ + id + ".scope"@);
            container_at(path) == Some(FoundView { id, runtime: "docker"@, path })
        }),
        ({
            let path = dir + seq!['/'] + ("libpod-"@ + id + ".scope"@);
            container_at(path) == Some(FoundView { id, runtime: "podman"@, path })
        }),
        ({
            let path = dir + seq!['/'] + ("cri-containerd-"@ + id + ".scope"@);
            container_at(path) == Some(FoundView { id, runtime: "containerd"@, path })
        }),
        ({
            let path = dir + seq!['/'] + ("crio-"@ + id + ".scope"@);
            container_at(path) == Some(FoundView { id, runtime: "cri-o"@, path })
        }),
        ({
            let path = dir + seq!['/'] + "docker"@ + seq!['/'] + id;
            container_at(path) == Some(FoundView { id, runtime: "docker"@, path })
        }),
{
    reveal_strlit("docker");
    reveal_strlit("docker-");
    reveal_strlit("libpod-");
    reveal_strlit("cri-containerd-");
    reveal_strlit("crio-");
    reveal_strlit(".scope");
    law_a_scope_is_recognized(id);
    lemma_id_has_no_slash(id);
    lemma_scope_has_no_slash("docker-"@, id);
    lemma_scope_has_no_slash("libpod-"@, id);
    lemma_scope_has_no_slash("cri-containerd-"@, id);
    lemma_scope_has_no_slash("crio-"@, id);
    law_names_and_parents(dir, "docker-"@ + id + ".scope"@);
    law_names_and_parents(dir, "libpod-"@ + id + ".scope"@);
    law_names_and_parents(dir, "cri-containerd-"@ + id + ".scope"@);
    law_names_and_parents(dir, "crio-"@ + id + ".scope"@);
    law_names_and_parents(dir, "docker"@);
    law_names_and_parents(dir + seq!['/'] + "docker"@, id);
    lemma_id_is_no_scope(id);
}

/// The name of a scope has no slash in it where neither the prefix nor the ID has.
proof fn lemma_scope_has_no_slash(prefix: Seq<char>, id: Seq<char>)
    requires
        !prefix.contains('/'),
        !id.contains('/'),
    ensures
        !(prefix + id + ".scope"@).contains('/'),
{
    reveal_strlit(".scope");
    let name = prefix + id + ".scope"@;
    if name.contains('/') {
        let i = choose|i: int| 0 <= i < name.len() && name[i] == '/';
        if i < prefix.len() {
            assert(prefix[i] == '/');
        } else if i < prefix.len() + id.len() {
            assert(id[i - prefix.len()] == '/');
        } else {
            assert(".scope"@[i - prefix.len() - id.len()] == '/');
        }
    }
}

/// Nothing else is a container: what is one stands in one of the five layouts, with
/// the runtime of that layout and at least twelve hexadecimal digits for its ID.
pub proof fn law_only_the_layouts_are_recognized(path: Seq<char>)
    ensures
        container_at(path) matches Some(f) ==> {
            &&& f.path == path
            &&& f.id.len() >= 12
            &&& forall|i: int|
                0 <= i < f.id.len() ==> '0' <= #[trigger] f.id[i] <= '9' || 'a' <= f.id[i] <= 'f'
                    || 'A' <= f.id[i] <= 'F'
            &&& {
                let name = base_name_of(path);
                ||| f.runtime == "docker"@ && name == "docker-"@ + f.id + ".scope"@
                ||| f.runtime == "podman"@ && name == "libpod-"@ + f.id + ".scope"@
                ||| f.runtime == "containerd"@ && name == "cri-containerd-"@ + f.id + ".scope"@
                ||| f.runtime == "cri-o"@ && name == "crio-"@ + f.id + ".scope"@
                ||| f.runtime == "docker"@ && name == f.id && base_name_of(parent_of(path))
                    == "docker"@
            }
        },
{
    law_only_scopes_are_recognized(base_name_of(path));
    match container_at(path) {
        Some(f) => {
            assert forall|i: int| 0 <= i < f.id.len() implies '0' <= #[trigger] f.id[i] <= '9'
                || 'a' <= f.id[i] <= 'f' || 'A' <= f.id[i] <= 'F' by {
                if classify_of(base_name_of(path)) is None {
                    assert(is_hex(f.id[i]));
                }
            }
        },
        None => {},
    }
}

/// The characters of a list of strings are those of each string, in order, and a
/// list of containers shows each of them, in order.
pub proof fn law_lists_show_each_element(v: Seq<String>, found: Seq<Found>)
    ensures
        texts(v).len() == v.len(),
        forall|i: int| 0 <= i < v.len() ==> #[trigger] texts(v)[i] == v[i]@,
        founds(found).len() == found.len(),
        forall|i: int| 0 <= i < found.len() ==> #[trigger] founds(found)[i] == found[i]@,
{
}

} // verus!
