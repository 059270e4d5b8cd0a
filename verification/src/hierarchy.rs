//! What a discovery finds, stated of the hierarchy as a whole.
//!
//! A hierarchy is modelled by what listing each directory gives. The laws here
//! say which containers a walk over it finds, that the walk ends, and that its
//! result does not depend on the order in which directories list their children.
use vstd::prelude::*;
use vstd::seq_lib::{
    group_to_multiset_ensures, lemma_multiset_commutative, to_multiset_build, to_multiset_contains,
};

use crate::cgroup::{file_in_of, is_container_id, law_a_file_is_behind_a_slash, FoundView};
use crate::discovery::{
    admitted, container_at, containers_in, insert_by_path, law_an_id_below_docker_is_a_container,
    law_every_layout_is_recognized, law_names_and_parents, law_only_the_layouts_are_recognized,
    lemma_docker_directory, others_in, parent_of, sorted_by_path, Walk,
    CGROUP_ROOT, MAX_DEPTH,
};
use crate::guard::{
    components, is_cgroup_file, law_files_of_a_cgroup, law_subdirectories_are_listable,
    law_the_tools_may_read_what_they_read, law_what_may_be_listed, lemma_child_is_no_root, may_list, may_read,
};
use crate::order::{lemma_le_antisymmetric, lemma_le_total, lemma_le_transitive, text_le};
use crate::text::lemma_split_last;

verus! {

/// What listing each directory gives: the paths of its subdirectories, or
/// nothing where it cannot be listed.
pub type Listing = spec_fn(Seq<char>) -> Option<Seq<Seq<char>>>;

/// The subdirectories of `dir` that the walk sees: none where `dir` may not be
/// listed.
pub open spec fn kids(l: Listing, dir: Seq<char>) -> Seq<Seq<char>> {
    admitted(dir, l(dir))
}

/// The walk `w` carried on to its end over the hierarchy `l`.
pub open spec fn run(w: Walk, l: Listing) -> Walk
    decreases w.levels, w.frontier.len(),
{
    if w.pending() is None {
        w
    } else {
        run(w.step(l(w.frontier[0])), l)
    }
}

/// What discovery reports of the hierarchy `l`.
pub open spec fn discover_of(l: Listing) -> Seq<FoundView> {
    sorted_by_path(run(Walk::start(), l).found)
}

/// The containers directly below the directories `dirs`.
pub open spec fn level_found(dirs: Seq<Seq<char>>, l: Listing) -> Seq<FoundView>
    decreases dirs.len(),
{
    if dirs.len() == 0 {
        Seq::empty()
    } else {
        containers_in(kids(l, dirs[0])) + level_found(dirs.drop_first(), l)
    }
}

/// The directories directly below the directories `dirs` that are not
/// containers.
pub open spec fn level_next(dirs: Seq<Seq<char>>, l: Listing) -> Seq<Seq<char>>
    decreases dirs.len(),
{
    if dirs.len() == 0 {
        Seq::empty()
    } else {
        others_in(kids(l, dirs[0])) + level_next(dirs.drop_first(), l)
    }
}

/// The containers up to `n` levels below the directories `dirs`, level by level.
pub open spec fn found_below(dirs: Seq<Seq<char>>, l: Listing, n: nat) -> Seq<FoundView>
    decreases n,
{
    if n == 0 {
        Seq::empty()
    } else {
        level_found(dirs, l) + found_below(level_next(dirs, l), l, (n - 1) as nat)
    }
}

/// Whether `child` is among what listing `dir` gives, and `dir` may be listed.
pub open spec fn lists(l: Listing, dir: Seq<char>, child: Seq<char>) -> bool {
    may_list(dir) && (l(dir) matches Some(paths) && paths.contains(child))
}

/// Whether `dir` lies `d` descents below the root: a chain of directories that are
/// not containers leads to it, each listed by the one before, which may be listed.
pub open spec fn reachable(l: Listing, dir: Seq<char>, d: nat) -> bool
    decreases d,
{
    if d == 0 {
        dir == CGROUP_ROOT@
    } else {
        container_at(dir) is None && exists|p: Seq<char>|
            reachable(l, p, (d - 1) as nat) && #[trigger] lists(l, p, dir)
    }
}

/// Whether `f` is a container that is listed by a directory fewer than
/// [`MAX_DEPTH`] descents below the root.
pub open spec fn within_reach(l: Listing, f: FoundView) -> bool {
    container_at(f.path) == Some(f) && exists|p: Seq<char>, d: nat| #[trigger]
        reachable(l, p, d) && d < MAX_DEPTH && lists(l, p, f.path)
}

/// Whether the walk comes to list `dir` after `d` descents.
spec fn reached(l: Listing, dir: Seq<char>, d: nat) -> bool
    decreases d,
{
    if d == 0 {
        dir == CGROUP_ROOT@
    } else {
        container_at(dir) is None && exists|p: Seq<char>|
            reached(l, p, (d - 1) as nat) && #[trigger] kids(l, p).contains(dir)
    }
}

/// Whether two hierarchies differ at most in the order in which directories list
/// their children.
pub open spec fn same_but_for_order(l: Listing, m: Listing) -> bool {
    forall|dir: Seq<char>| #[trigger] kids(l, dir).to_multiset() == kids(m, dir).to_multiset()
}

/// What a walk has found and will find over `l`.
spec fn outcome(w: Walk, l: Listing) -> Seq<FoundView> {
    if w.pending() is None {
        w.found
    } else {
        w.found + level_found(w.frontier, l) + found_below(
            w.next + level_next(w.frontier, l),
            l,
            (w.levels - 1) as nat,
        )
    }
}

/// No directories, no containers below them.
proof fn lemma_found_below_nothing(l: Listing, n: nat)
    ensures
        found_below(Seq::empty(), l, n) == Seq::<FoundView>::empty(),
    decreases n,
{
    if n > 0 {
        lemma_found_below_nothing(l, (n - 1) as nat);
        assert(level_found(Seq::empty(), l) =~= Seq::empty());
        assert(level_next(Seq::empty(), l) =~= Seq::empty());
    }
}

/// A step of the walk changes nothing of what it will have found.
proof fn lemma_step_keeps_outcome(w: Walk, l: Listing)
    requires
        w.pending() is Some,
    ensures
        outcome(w.step(l(w.frontier[0])), l) == outcome(w, l),
{
    let dir = w.frontier[0];
    let ks = kids(l, dir);
    let rest = w.frontier.drop_first();
    let v = w.step(l(dir));
    let n = (w.levels - 1) as nat;
    assert(level_found(w.frontier, l) == containers_in(ks) + level_found(rest, l));
    assert(level_next(w.frontier, l) == others_in(ks) + level_next(rest, l));
    assert(v.found == w.found + containers_in(ks));
    if rest.len() == 0 {
        assert(level_found(rest, l) =~= Seq::empty());
        assert(level_next(rest, l) =~= Seq::empty());
        assert(w.next + level_next(w.frontier, l) =~= v.frontier);
        assert(w.found + level_found(w.frontier, l) =~= v.found);
        assert(outcome(w, l) == v.found + found_below(v.frontier, l, n));
        if v.pending() is None {
            if v.frontier.len() == 0 {
                assert(v.frontier =~= Seq::empty());
                lemma_found_below_nothing(l, n);
            }
            assert(outcome(w, l) =~= v.found);
        } else {
            assert(v.next + level_next(v.frontier, l) =~= level_next(v.frontier, l));
            assert(outcome(v, l) =~= outcome(w, l));
        }
    } else {
        assert(v.next + level_next(rest, l) =~= w.next + level_next(w.frontier, l));
        assert(v.found + level_found(rest, l) =~= w.found + level_found(w.frontier, l));
    }
}

/// A walk carried on to its end is over, and has found what it was to find.
proof fn lemma_run(w: Walk, l: Listing)
    ensures
        run(w, l).pending() is None,
        run(w, l).found == outcome(w, l),
    decreases w.levels, w.frontier.len(),
{
    if w.pending() is Some {
        lemma_step_keeps_outcome(w, l);
        lemma_run(w.step(l(w.frontier[0])), l);
    }
}

/// Each listing brings the walk nearer to its end: either a level is done, or
/// one directory fewer of it is left. So the walk ends, whatever the listings
/// give.
pub proof fn law_walk_advances(w: Walk, children: Option<Seq<Seq<char>>>)
    requires
        w.pending() is Some,
    ensures
        ({
            let v = w.step(children);
            ||| v.levels == w.levels - 1
            ||| v.levels == w.levels && v.frontier.len() == w.frontier.len() - 1
        }),
        w.step(children).levels >= 0,
{
}

/// A walk carried on to its end finds the containers of the first [`MAX_DEPTH`]
/// levels below the root, level by level.
pub proof fn law_walk_finds_levels(l: Listing)
    ensures
        run(Walk::start(), l).pending() is None,
        run(Walk::start(), l).found == found_below(seq![CGROUP_ROOT@], l, MAX_DEPTH as nat),
{
    let w = Walk::start();
    lemma_run(w, l);
    assert(w.next + level_next(w.frontier, l) =~= level_next(w.frontier, l));
    assert(w.found + level_found(w.frontier, l) =~= level_found(w.frontier, l));
}

proof fn lemma_containers_in(paths: Seq<Seq<char>>, f: FoundView)
    ensures
        containers_in(paths).contains(f) <==> paths.contains(f.path) && container_at(f.path)
            == Some(f),
    decreases paths.len(),
{
    if paths.len() > 0 {
        let init = paths.drop_last();
        lemma_containers_in(init, f);
        assert(paths =~= init.push(paths.last()));
        lemma_push_contains(init, paths.last(), f.path);
        match container_at(paths.last()) {
            Some(g) => {
                lemma_push_contains(containers_in(init), g, f);
            },
            None => {},
        }
    }
}

proof fn lemma_others_in(paths: Seq<Seq<char>>, dir: Seq<char>)
    ensures
        others_in(paths).contains(dir) <==> paths.contains(dir) && container_at(dir) is None,
    decreases paths.len(),
{
    if paths.len() > 0 {
        let init = paths.drop_last();
        lemma_others_in(init, dir);
        assert(paths =~= init.push(paths.last()));
        lemma_push_contains(init, paths.last(), dir);
        if container_at(paths.last()) is None {
            lemma_push_contains(others_in(init), paths.last(), dir);
        }
    }
}

proof fn lemma_push_contains<A>(s: Seq<A>, a: A, x: A)
    ensures
        s.push(a).contains(x) <==> s.contains(x) || x == a,
{
    let t = s.push(a);
    if t.contains(x) {
        let i = choose|i: int| 0 <= i < t.len() && t[i] == x;
        if i < s.len() {
            assert(s[i] == x);
        }
    }
    if s.contains(x) {
        let i = choose|i: int| 0 <= i < s.len() && s[i] == x;
        assert(t[i] == x);
    }
    if x == a {
        assert(t[s.len() as int] == x);
    }
}

proof fn lemma_concat_contains<A>(s: Seq<A>, t: Seq<A>, x: A)
    ensures
        (s + t).contains(x) <==> s.contains(x) || t.contains(x),
{
    let u = s + t;
    if u.contains(x) {
        let i = choose|i: int| 0 <= i < u.len() && u[i] == x;
        if i < s.len() {
            assert(s[i] == x);
        } else {
            assert(t[i - s.len()] == x);
        }
    }
    if s.contains(x) {
        let i = choose|i: int| 0 <= i < s.len() && s[i] == x;
        assert(u[i] == x);
    }
    if t.contains(x) {
        let i = choose|i: int| 0 <= i < t.len() && t[i] == x;
        assert(u[i + s.len()] == x);
    }
}

proof fn lemma_first_or_rest<A>(s: Seq<A>, x: A)
    requires
        s.len() > 0,
    ensures
        s.contains(x) <==> x == s[0] || s.drop_first().contains(x),
{
    assert(s =~= seq![s[0]] + s.drop_first());
    lemma_concat_contains(seq![s[0]], s.drop_first(), x);
    let one = seq![s[0]];
    assert(one[0] == s[0]);
    assert(one.contains(x) <==> x == s[0]);
}

proof fn lemma_level_found(dirs: Seq<Seq<char>>, l: Listing, f: FoundView)
    ensures
        level_found(dirs, l).contains(f) <==> container_at(f.path) == Some(f) && exists|p: Seq<
            char,
        >| #[trigger]
            dirs.contains(p) && kids(l, p).contains(f.path),
    decreases dirs.len(),
{
    if dirs.len() > 0 {
        let rest = dirs.drop_first();
        lemma_level_found(rest, l, f);
        lemma_concat_contains(containers_in(kids(l, dirs[0])), level_found(rest, l), f);
        lemma_containers_in(kids(l, dirs[0]), f);
        assert forall|p: Seq<char>| #[trigger] dirs.contains(p) <==> p == dirs[0]
            || rest.contains(p) by {
            lemma_first_or_rest(dirs, p);
        }
        assert(dirs.contains(dirs[0]));
        if exists|p: Seq<char>| #[trigger] rest.contains(p) && kids(l, p).contains(f.path) {
            let p = choose|p: Seq<char>| #[trigger]
                rest.contains(p) && kids(l, p).contains(f.path);
            assert(dirs.contains(p));
        }
    }
}

proof fn lemma_level_next(dirs: Seq<Seq<char>>, l: Listing, dir: Seq<char>)
    ensures
        level_next(dirs, l).contains(dir) <==> container_at(dir) is None && exists|p: Seq<char>|
         #[trigger]
            dirs.contains(p) && kids(l, p).contains(dir),
    decreases dirs.len(),
{
    if dirs.len() > 0 {
        let rest = dirs.drop_first();
        lemma_level_next(rest, l, dir);
        lemma_concat_contains(others_in(kids(l, dirs[0])), level_next(rest, l), dir);
        lemma_others_in(kids(l, dirs[0]), dir);
        assert forall|p: Seq<char>| #[trigger] dirs.contains(p) <==> p == dirs[0]
            || rest.contains(p) by {
            lemma_first_or_rest(dirs, p);
        }
        assert(dirs.contains(dirs[0]));
        if exists|p: Seq<char>| #[trigger] rest.contains(p) && kids(l, p).contains(dir) {
            let p = choose|p: Seq<char>| #[trigger] rest.contains(p) && kids(l, p).contains(dir);
            assert(dirs.contains(p));
        }
    }
}

/// Where `dirs` are what the walk lists after `d` descents, the containers of
/// the next `n` levels are those below what it lists after `d` to `d + n - 1`.
proof fn lemma_found_below(dirs: Seq<Seq<char>>, l: Listing, d: nat, n: nat, f: FoundView)
    requires
        forall|p: Seq<char>| #[trigger] dirs.contains(p) <==> reached(l, p, d),
    ensures
        found_below(dirs, l, n).contains(f) <==> container_at(f.path) == Some(f) && exists|
            p: Seq<char>,
            e: nat,
        | #[trigger]
            reached(l, p, e) && d <= e < d + n && kids(l, p).contains(f.path),
    decreases n,
{
    if n > 0 {
        let next = level_next(dirs, l);
        assert forall|q: Seq<char>| #[trigger] next.contains(q) <==> reached(l, q, d + 1) by {
            lemma_level_next(dirs, l, q);
            assert((d + 1 - 1) as nat == d);
            if next.contains(q) {
                let p = choose|p: Seq<char>| #[trigger] dirs.contains(p) && kids(l, p).contains(q);
                assert(reached(l, p, d));
            }
            if reached(l, q, d + 1) {
                let p = choose|p: Seq<char>|
                    reached(l, p, d) && #[trigger] kids(l, p).contains(q);
                assert(dirs.contains(p));
            }
        }
        lemma_found_below(next, l, d + 1, (n - 1) as nat, f);
        lemma_concat_contains(level_found(dirs, l), found_below(next, l, (n - 1) as nat), f);
        lemma_level_found(dirs, l, f);
        if level_found(dirs, l).contains(f) {
            let p = choose|p: Seq<char>| #[trigger]
                dirs.contains(p) && kids(l, p).contains(f.path);
            assert(reached(l, p, d));
        }
        if container_at(f.path) == Some(f) && exists|p: Seq<char>, e: nat| #[trigger]
            reached(l, p, e) && d <= e < d + n && kids(l, p).contains(f.path) {
            let (p, e) = choose|p: Seq<char>, e: nat| #[trigger]
                reached(l, p, e) && d <= e < d + n && kids(l, p).contains(f.path);
            if e == d {
                assert(dirs.contains(p));
            } else {
                assert(reached(l, p, e) && d + 1 <= e < d + n);
            }
        }
        if found_below(next, l, (n - 1) as nat).contains(f) {
            let (p, e) = choose|p: Seq<char>, e: nat| #[trigger]
                reached(l, p, e) && d + 1 <= e < d + n && kids(l, p).contains(f.path);
            assert(reached(l, p, e) && d <= e < d + n);
        }
    }
}

/// Sorting keeps every container, as often as it was there.
pub proof fn lemma_sort_keeps(s: Seq<FoundView>)
    ensures
        sorted_by_path(s).to_multiset() == s.to_multiset(),
    decreases s.len(),
{
    broadcast use vstd::multiset::group_multiset_axioms;

    if s.len() > 0 {
        lemma_sort_keeps(s.drop_last());
        lemma_insert_keeps(sorted_by_path(s.drop_last()), s.last());
        to_multiset_build(s.drop_last(), s.last());
        assert(s =~= s.drop_last().push(s.last()));
    } else {
        assert(s =~= sorted_by_path(s));
    }
}

proof fn lemma_insert_keeps(s: Seq<FoundView>, f: FoundView)
    ensures
        insert_by_path(s, f).to_multiset() == s.to_multiset().insert(f),
        insert_by_path(s, f).len() == s.len() + 1,
    decreases s.len(),
{
    broadcast use vstd::multiset::group_multiset_axioms;

    if s.len() == 0 || text_le(s.last().path, f.path) {
        to_multiset_build(s, f);
    } else {
        let init = s.drop_last();
        lemma_insert_keeps(init, f);
        to_multiset_build(insert_by_path(init, f), s.last());
        to_multiset_build(init, s.last());
        assert(s =~= init.push(s.last()));
        assert(init.to_multiset().insert(f).insert(s.last()) =~= init.to_multiset().insert(
            s.last(),
        ).insert(f));
    }
}

/// Whether no path of `s` comes before one that precedes it.
pub open spec fn path_ascending(s: Seq<FoundView>) -> bool {
    forall|i: int, j: int|
        0 <= i <= j < s.len() ==> text_le(#[trigger] s[i].path, #[trigger] s[j].path)
}

proof fn lemma_insert_ascends(s: Seq<FoundView>, f: FoundView)
    requires
        path_ascending(s),
    ensures
        path_ascending(insert_by_path(s, f)),
        forall|i: int|
            0 <= i < insert_by_path(s, f).len() ==> insert_by_path(s, f)[i] == f || s.contains(
                #[trigger] insert_by_path(s, f)[i],
            ),
    decreases s.len(),
{
    let r = insert_by_path(s, f);
    if s.len() == 0 || text_le(s.last().path, f.path) {
        assert forall|i: int, j: int| 0 <= i <= j < r.len() implies text_le(
            #[trigger] r[i].path,
            #[trigger] r[j].path,
        ) by {
            if j < s.len() {
                assert(text_le(s[i].path, s[j].path));
            } else if i < s.len() {
                assert(text_le(s[i].path, s[s.len() - 1].path));
                lemma_le_transitive(s[i].path, s.last().path, f.path);
            } else {
                crate::order::lemma_le_reflexive(f.path);
            }
        }
        assert forall|i: int| 0 <= i < r.len() implies r[i] == f || s.contains(#[trigger] r[i]) by {
            if i < s.len() {
                assert(r[i] == s[i]);
            }
        }
    } else {
        let init = s.drop_last();
        assert forall|i: int, j: int| 0 <= i <= j < init.len() implies text_le(
            #[trigger] init[i].path,
            #[trigger] init[j].path,
        ) by {
            assert(text_le(s[i].path, s[j].path));
        }
        lemma_insert_ascends(init, f);
        let q = insert_by_path(init, f);
        lemma_le_total(s.last().path, f.path);
        assert forall|i: int| 0 <= i < q.len() implies text_le(
            #[trigger] q[i].path,
            s.last().path,
        ) && (q[i] == f || s.contains(q[i])) by {
            if q[i] != f {
                assert(init.contains(q[i]));
                let k = choose|k: int| 0 <= k < init.len() && init[k] == q[i];
                assert(s[k] == q[i]);
                assert(text_le(s[k].path, s[s.len() - 1].path));
            }
        }
        assert forall|i: int, j: int| 0 <= i <= j < r.len() implies text_le(
            #[trigger] r[i].path,
            #[trigger] r[j].path,
        ) by {
            if j < q.len() {
                assert(text_le(q[i].path, q[j].path));
            } else if i < q.len() {
                assert(text_le(q[i].path, s.last().path));
            } else {
                crate::order::lemma_le_reflexive(s.last().path);
            }
        }
        assert forall|i: int| 0 <= i < r.len() implies r[i] == f || s.contains(#[trigger] r[i]) by {
            if i < q.len() {
                assert(r[i] == q[i]);
            } else {
                assert(s[s.len() - 1] == r[i]);
            }
        }
    }
}

/// What comes out of sorting is in order of path.
pub proof fn lemma_sort_ascends(s: Seq<FoundView>)
    ensures
        path_ascending(sorted_by_path(s)),
    decreases s.len(),
{
    if s.len() > 0 {
        lemma_sort_ascends(s.drop_last());
        lemma_insert_ascends(sorted_by_path(s.drop_last()), s.last());
    }
}

/// Discovery reports its containers in order of path.
pub proof fn law_discovery_is_ordered(l: Listing)
    ensures
        path_ascending(discover_of(l)),
{
    lemma_sort_ascends(run(Walk::start(), l).found);
}

/// What the walk sees in a directory is all that its listing gives, where the
/// directory may be listed, and nothing where it may not be.
proof fn lemma_kids_are_listed(l: Listing, dir: Seq<char>, child: Seq<char>)
    ensures
        kids(l, dir).contains(child) <==> lists(l, dir, child),
{
    let nothing = Seq::<Seq<char>>::empty();
    assert(!nothing.contains(child));
}

/// The walk comes to list what lies below the root.
proof fn lemma_reached(l: Listing, dir: Seq<char>, d: nat)
    ensures
        reached(l, dir, d) <==> reachable(l, dir, d),
    decreases d,
{
    if d > 0 {
        let e = (d - 1) as nat;
        if reached(l, dir, d) {
            let p = choose|p: Seq<char>| reached(l, p, e) && #[trigger] kids(l, p).contains(dir);
            lemma_reached(l, p, e);
            lemma_kids_are_listed(l, p, dir);
            assert(reachable(l, p, e) && lists(l, p, dir));
        }
        if reachable(l, dir, d) {
            let p = choose|p: Seq<char>| reachable(l, p, e) && #[trigger] lists(l, p, dir);
            lemma_reached(l, p, e);
            lemma_kids_are_listed(l, p, dir);
            assert(reached(l, p, e) && kids(l, p).contains(dir));
        }
    }
}

/// Discovery reports a container if and only if it is one and is listed by a
/// directory that a chain of fewer than [`MAX_DEPTH`] descents leads to, through
/// directories other than containers, each of which may be listed. Of a directory
/// that may be listed, all that its listing gives counts.
pub proof fn law_discovery_finds_exactly(l: Listing, f: FoundView)
    ensures
        discover_of(l).contains(f) <==> within_reach(l, f),
{
    let found = run(Walk::start(), l).found;
    law_walk_finds_levels(l);
    lemma_sort_keeps(found);
    to_multiset_contains(found, f);
    to_multiset_contains(discover_of(l), f);
    let dirs = seq![CGROUP_ROOT@];
    assert forall|p: Seq<char>| #[trigger] dirs.contains(p) <==> reached(l, p, 0) by {
        assert(dirs[0] == CGROUP_ROOT@);
    }
    lemma_found_below(dirs, l, 0, MAX_DEPTH as nat, f);
    if within_reach(l, f) {
        let (p, d) = choose|p: Seq<char>, d: nat| #[trigger]
            reachable(l, p, d) && d < MAX_DEPTH && lists(l, p, f.path);
        lemma_reached(l, p, d);
        lemma_kids_are_listed(l, p, f.path);
        assert(reached(l, p, d) && 0 <= d < 0 + MAX_DEPTH);
    }
    if discover_of(l).contains(f) {
        let (p, d) = choose|p: Seq<char>, d: nat| #[trigger]
            reached(l, p, d) && 0 <= d < 0 + MAX_DEPTH && kids(l, p).contains(f.path);
        lemma_reached(l, p, d);
        lemma_kids_are_listed(l, p, f.path);
        assert(reachable(l, p, d) && d < MAX_DEPTH && lists(l, p, f.path));
    }
}

proof fn lemma_containers_count(paths: Seq<Seq<char>>, f: FoundView)
    ensures
        containers_in(paths).to_multiset().count(f) == (if container_at(f.path) == Some(f) {
            paths.to_multiset().count(f.path)
        } else {
            0
        }),
    decreases paths.len(),
{
    broadcast use vstd::multiset::group_multiset_axioms;

    if paths.len() == 0 {
        to_multiset_contains(paths, f.path);
        to_multiset_contains(containers_in(paths), f);
    } else {
        let init = paths.drop_last();
        lemma_containers_count(init, f);
        assert(paths =~= init.push(paths.last()));
        to_multiset_build(init, paths.last());
        match container_at(paths.last()) {
            Some(g) => {
                to_multiset_build(containers_in(init), g);
            },
            None => {},
        }
    }
}

proof fn lemma_others_count(paths: Seq<Seq<char>>, dir: Seq<char>)
    ensures
        others_in(paths).to_multiset().count(dir) == (if container_at(dir) is None {
            paths.to_multiset().count(dir)
        } else {
            0
        }),
    decreases paths.len(),
{
    broadcast use vstd::multiset::group_multiset_axioms;

    if paths.len() == 0 {
        to_multiset_contains(paths, dir);
        to_multiset_contains(others_in(paths), dir);
    } else {
        let init = paths.drop_last();
        lemma_others_count(init, dir);
        assert(paths =~= init.push(paths.last()));
        to_multiset_build(init, paths.last());
        if container_at(paths.last()) is None {
            to_multiset_build(others_in(init), paths.last());
        }
    }
}

proof fn lemma_split_same(a: Seq<Seq<char>>, b: Seq<Seq<char>>)
    requires
        a.to_multiset() == b.to_multiset(),
    ensures
        containers_in(a).to_multiset() == containers_in(b).to_multiset(),
        others_in(a).to_multiset() == others_in(b).to_multiset(),
{
    assert forall|f: FoundView|
        #[trigger] containers_in(a).to_multiset().count(f) == containers_in(b).to_multiset().count(
            f,
        ) by {
        lemma_containers_count(a, f);
        lemma_containers_count(b, f);
    }
    assert forall|d: Seq<char>|
        #[trigger] others_in(a).to_multiset().count(d) == others_in(b).to_multiset().count(d) by {
        lemma_others_count(a, d);
        lemma_others_count(b, d);
    }
    assert(containers_in(a).to_multiset() =~= containers_in(b).to_multiset());
    assert(others_in(a).to_multiset() =~= others_in(b).to_multiset());
}

/// One directory of a level can be taken out of it and counted apart.
proof fn lemma_level_apart(dirs: Seq<Seq<char>>, l: Listing, j: int)
    requires
        0 <= j < dirs.len(),
    ensures
        level_found(dirs, l).to_multiset() == containers_in(kids(l, dirs[j])).to_multiset().add(
            level_found(dirs.remove(j), l).to_multiset(),
        ),
        level_next(dirs, l).to_multiset() == others_in(kids(l, dirs[j])).to_multiset().add(
            level_next(dirs.remove(j), l).to_multiset(),
        ),
    decreases dirs.len(),
{
    broadcast use vstd::multiset::group_multiset_axioms;

    let rest = dirs.drop_first();
    let c0 = containers_in(kids(l, dirs[0]));
    let o0 = others_in(kids(l, dirs[0]));
    lemma_multiset_commutative(c0, level_found(rest, l));
    lemma_multiset_commutative(o0, level_next(rest, l));
    if j == 0 {
        assert(dirs.remove(0) =~= rest);
    } else {
        lemma_level_apart(rest, l, j - 1);
        let less = dirs.remove(j);
        assert(less.drop_first() =~= rest.remove(j - 1));
        assert(less[0] == dirs[0]);
        lemma_multiset_commutative(c0, level_found(less.drop_first(), l));
        lemma_multiset_commutative(o0, level_next(less.drop_first(), l));
        assert(rest[j - 1] == dirs[j]);
        let cj = containers_in(kids(l, dirs[j])).to_multiset();
        let oj = others_in(kids(l, dirs[j])).to_multiset();
        let c = level_found(less.drop_first(), l).to_multiset();
        let o = level_next(less.drop_first(), l).to_multiset();
        assert(c0.to_multiset().add(cj.add(c)) =~= cj.add(c0.to_multiset().add(c)));
        assert(o0.to_multiset().add(oj.add(o)) =~= oj.add(o0.to_multiset().add(o)));
    }
}

proof fn lemma_level_same(a: Seq<Seq<char>>, b: Seq<Seq<char>>, l: Listing, m: Listing)
    requires
        a.to_multiset() == b.to_multiset(),
        same_but_for_order(l, m),
    ensures
        level_found(a, l).to_multiset() == level_found(b, m).to_multiset(),
        level_next(a, l).to_multiset() == level_next(b, m).to_multiset(),
    decreases a.len(),
{
    broadcast use {vstd::multiset::group_multiset_axioms, group_to_multiset_ensures};

    assert(a.len() == a.to_multiset().len());
    assert(b.len() == b.to_multiset().len());
    if a.len() > 0 {
        let dir = a[0];
        assert(a.contains(dir));
        to_multiset_contains(a, dir);
        to_multiset_contains(b, dir);
        let j = choose|j: int| 0 <= j < b.len() && b[j] == dir;
        lemma_level_apart(a, l, 0);
        lemma_level_apart(b, m, j);
        assert(a.remove(0).to_multiset() == a.to_multiset().remove(dir));
        assert(b.remove(j).to_multiset() == b.to_multiset().remove(dir));
        lemma_level_same(a.remove(0), b.remove(j), l, m);
        assert(kids(l, dir).to_multiset() == kids(m, dir).to_multiset());
        lemma_split_same(kids(l, dir), kids(m, dir));
    } else {
        assert(level_found(a, l) =~= level_found(b, m));
        assert(level_next(a, l) =~= level_next(b, m));
    }
}

proof fn lemma_found_same(
    a: Seq<Seq<char>>,
    b: Seq<Seq<char>>,
    l: Listing,
    m: Listing,
    n: nat,
)
    requires
        a.to_multiset() == b.to_multiset(),
        same_but_for_order(l, m),
    ensures
        found_below(a, l, n).to_multiset() == found_below(b, m, n).to_multiset(),
    decreases n,
{
    if n > 0 {
        lemma_level_same(a, b, l, m);
        let k = (n - 1) as nat;
        lemma_found_same(level_next(a, l), level_next(b, m), l, m, k);
        lemma_multiset_commutative(level_found(a, l), found_below(level_next(a, l), l, k));
        lemma_multiset_commutative(level_found(b, m), found_below(level_next(b, m), m, k));
    }
}

/// Two sequences of containers in order of path that hold the same ones are the
/// same sequence: a path stands for one container.
proof fn lemma_ascending_same(a: Seq<FoundView>, b: Seq<FoundView>)
    requires
        path_ascending(a),
        path_ascending(b),
        a.to_multiset() == b.to_multiset(),
        forall|i: int| 0 <= i < a.len() ==> container_at(#[trigger] a[i].path) == Some(a[i]),
    ensures
        a == b,
    decreases a.len(),
{
    broadcast use {vstd::multiset::group_multiset_axioms, group_to_multiset_ensures};

    assert(a.len() == a.to_multiset().len());
    assert(b.len() == b.to_multiset().len());
    if a.len() > 0 {
        let n = a.len() - 1;
        assert(a.contains(a[n]));
        assert(b.contains(b[n]));
        to_multiset_contains(a, a[n]);
        to_multiset_contains(b, a[n]);
        to_multiset_contains(a, b[n]);
        to_multiset_contains(b, b[n]);
        let i = choose|i: int| 0 <= i < b.len() && b[i] == a[n];
        let j = choose|j: int| 0 <= j < a.len() && a[j] == b[n];
        assert(text_le(b[i].path, b[n].path));
        assert(text_le(a[j].path, a[n].path));
        lemma_le_antisymmetric(a[n].path, b[n].path);
        assert(container_at(a[j].path) == Some(a[j]));
        assert(container_at(a[n].path) == Some(a[n]));
        assert(a[n] == b[n]);
        let s = a.drop_last();
        let t = b.drop_last();
        assert(s =~= a.remove(n));
        assert(t =~= b.remove(n));
        assert forall|p: int, q: int| 0 <= p <= q < s.len() implies text_le(
            #[trigger] s[p].path,
            #[trigger] s[q].path,
        ) by {
            assert(text_le(a[p].path, a[q].path));
        }
        assert forall|p: int, q: int| 0 <= p <= q < t.len() implies text_le(
            #[trigger] t[p].path,
            #[trigger] t[q].path,
        ) by {
            assert(text_le(b[p].path, b[q].path));
        }
        assert forall|p: int| 0 <= p < s.len() implies container_at(#[trigger] s[p].path) == Some(
            s[p],
        ) by {
            assert(container_at(a[p].path) == Some(a[p]));
        }
        lemma_ascending_same(s, t);
        assert(a =~= s.push(a[n]));
        assert(b =~= t.push(b[n]));
    } else {
        assert(a =~= b);
    }
}

/// Repeated discoveries agree: the order in which directories list their
/// children does not show in the result.
pub proof fn law_discovery_ignores_listing_order(l: Listing, m: Listing)
    requires
        same_but_for_order(l, m),
    ensures
        discover_of(l) == discover_of(m),
{
    let root = seq![CGROUP_ROOT@];
    law_walk_finds_levels(l);
    law_walk_finds_levels(m);
    lemma_found_same(root, root, l, m, MAX_DEPTH as nat);
    lemma_sort_keeps(run(Walk::start(), l).found);
    lemma_sort_keeps(run(Walk::start(), m).found);
    law_discovery_is_ordered(l);
    law_discovery_is_ordered(m);
    let a = discover_of(l);
    assert forall|i: int| 0 <= i < a.len() implies container_at(#[trigger] a[i].path) == Some(
        a[i],
    ) by {
        assert(a.contains(a[i]));
        law_discovery_finds_exactly(l, a[i]);
    }
    lemma_ascending_same(a, discover_of(m));
}

/// Whether every child that a directory lists is the directory with a plain name
/// behind it.
pub open spec fn lists_its_children(l: Listing) -> bool {
    forall|dir: Seq<char>, child: Seq<char>| #[trigger]
        lists(l, dir, child) ==> exists|name: Seq<char>|
            name.len() > 0 && name != "."@ && name != ".."@ && !name.contains('/') && child
                == #[trigger] file_in_of(dir, name)
}

/// A directory that the walk lists may be listed, and so may what it lists.
proof fn lemma_reachable_is_listable(l: Listing, dir: Seq<char>, d: nat)
    requires
        lists_its_children(l),
        reachable(l, dir, d),
    ensures
        may_list(dir),
    decreases d,
{
    law_the_tools_may_read_what_they_read();
    if d > 0 {
        let p = choose|p: Seq<char>|
            reachable(l, p, (d - 1) as nat) && #[trigger] lists(l, p, dir);
        lemma_reachable_is_listable(l, p, (d - 1) as nat);
        lemma_child_is_listable(l, p, dir);
    }
}

/// A child of a directory that may be listed may be listed, and is not the root.
proof fn lemma_child_is_listable(l: Listing, dir: Seq<char>, child: Seq<char>)
    requires
        lists_its_children(l),
        may_list(dir),
        lists(l, dir, child),
    ensures
        may_list(child),
        child != CGROUP_ROOT@,
{
    let name = choose|name: Seq<char>|
        name.len() > 0 && name != "."@ && name != ".."@ && !name.contains('/') && child
            == #[trigger] file_in_of(dir, name);
    law_subdirectories_are_listable(dir, name);
    lemma_child_is_no_root(dir, name);
}

/// Finding a container gives no right to read what is in it: of the files of a
/// container that discovery reports, exactly those of the allowlist may be read.
/// The walk itself only lists directories that may be listed.
pub proof fn law_discovery_stays_within_the_guard(
    l: Listing,
    f: FoundView,
    name: Seq<char>,
    dir: Seq<char>,
    d: nat,
)
    requires
        lists_its_children(l),
        !name.contains('/'),
    ensures
        reachable(l, dir, d) ==> may_list(dir),
        discover_of(l).contains(f) ==> may_list(f.path) && (may_read(file_in_of(f.path, name))
            <==> is_cgroup_file(name)),
{
    if reachable(l, dir, d) {
        lemma_reachable_is_listable(l, dir, d);
    }
    if discover_of(l).contains(f) {
        law_discovery_finds_exactly(l, f);
        let (p, e) = choose|p: Seq<char>, e: nat| #[trigger]
            reachable(l, p, e) && e < MAX_DEPTH && lists(l, p, f.path);
        lemma_reachable_is_listable(l, p, e);
        lemma_child_is_listable(l, p, f.path);
        law_files_of_a_cgroup(f.path, name);
    }
}

/// Whatever the listings give, a container is reported only from a directory that
/// may be listed: what stands in one that the guard refuses is never seen.
pub proof fn law_refused_directories_hide_their_containers(l: Listing, f: FoundView)
    requires
        discover_of(l).contains(f),
    ensures
        exists|p: Seq<char>| #[trigger]
            may_list(p) && (l(p) matches Some(paths) && paths.contains(f.path)),
{
    law_discovery_finds_exactly(l, f);
    let (p, d) = choose|p: Seq<char>, d: nat| #[trigger]
        reachable(l, p, d) && d < MAX_DEPTH && lists(l, p, f.path);
    assert(may_list(p));
}

/// A container of Docker with the cgroupfs driver is found: its directory is named
/// by its ID and stands below `docker` at the root of the hierarchy.
pub proof fn law_docker_without_scopes_is_found(l: Listing, id: Seq<char>)
    requires
        is_container_id(id),
        l(CGROUP_ROOT@) matches Some(paths) && paths.contains(file_in_of(CGROUP_ROOT@, "docker"@)),
        l(file_in_of(CGROUP_ROOT@, "docker"@)) matches Some(paths) && paths.contains(
            file_in_of(file_in_of(CGROUP_ROOT@, "docker"@), id),
        ),
    ensures
        discover_of(l).contains(
            FoundView {
                id,
                runtime: "docker"@,
                path: file_in_of(file_in_of(CGROUP_ROOT@, "docker"@), id),
            },
        ),
{
    reveal_strlit("docker");
    reveal_strlit(".");
    reveal_strlit("..");
    let dir = file_in_of(CGROUP_ROOT@, "docker"@);
    let path = file_in_of(dir, id);
    let f = FoundView { id, runtime: "docker"@, path };
    law_the_tools_may_read_what_they_read();
    law_subdirectories_are_listable(CGROUP_ROOT@, "docker"@);
    lemma_docker_directory();
    law_an_id_below_docker_is_a_container(dir, id);
    assert(reachable(l, CGROUP_ROOT@, 0));
    assert(lists(l, CGROUP_ROOT@, dir));
    assert((1 - 1) as nat == 0);
    assert(reachable(l, dir, 1));
    assert(lists(l, dir, path));
    assert(within_reach(l, f));
    law_discovery_finds_exactly(l, f);
}

/// A listing counts for all that it gives, and for as often as it gives it, where
/// the directory may be listed: each path of a container is found once more, and
/// each other path is put aside to be listed on the next level. What was found or
/// put aside before stays.
pub proof fn law_a_listing_counts_for_all_it_gives(
    w: Walk,
    children: Seq<Seq<char>>,
    f: FoundView,
    dir: Seq<char>,
)
    requires
        w.pending() is Some,
    ensures
        ({
            let v = w.step(Some(children));
            let seen = may_list(w.frontier[0]);
            let last = w.frontier.len() == 1;
            &&& w.pending() == Some(w.frontier[0])
            &&& v.found.to_multiset().count(f) == w.found.to_multiset().count(f) + (if seen
                && container_at(f.path) == Some(f) {
                children.to_multiset().count(f.path)
            } else {
                0
            })
            &&& (if last {
                v.frontier
            } else {
                v.next
            }).to_multiset().count(dir) == w.next.to_multiset().count(dir) + (if seen
                && container_at(dir) is None {
                children.to_multiset().count(dir)
            } else {
                0
            })
            &&& last ==> v.next.len() == 0 && v.levels == w.levels - 1
            &&& !last ==> v.frontier == w.frontier.drop_first() && v.levels == w.levels
            &&& w.step(None) == w.step(Some(Seq::empty()))
        }),
{
    broadcast use vstd::multiset::group_multiset_axioms;

    let none = Seq::<Seq<char>>::empty();
    let ks = if may_list(w.frontier[0]) {
        children
    } else {
        none
    };
    lemma_containers_count(ks, f);
    lemma_others_count(ks, dir);
    lemma_multiset_commutative(w.found, containers_in(ks));
    lemma_multiset_commutative(w.next, others_in(ks));
    to_multiset_contains(none, f.path);
    to_multiset_contains(none, dir);
    assert(!none.contains(f.path) && !none.contains(dir));
}

/// What comes out of a walk is what it found: every container as often, and in order
/// of path.
pub proof fn law_what_was_found_comes_out(found: Seq<FoundView>)
    ensures
        sorted_by_path(found).to_multiset() == found.to_multiset(),
        forall|i: int, j: int|
            0 <= i <= j < sorted_by_path(found).len() ==> text_le(
                (#[trigger] sorted_by_path(found)[i]).path,
                (#[trigger] sorted_by_path(found)[j]).path,
            ),
{
    lemma_sort_keeps(found);
    lemma_sort_ascends(found);
}

/// Two lists that share nothing, and have nothing twice, have nothing twice
/// together.
proof fn lemma_concat_once<A>(a: Seq<A>, b: Seq<A>)
    requires
        a.no_duplicates(),
        b.no_duplicates(),
        forall|x: A| #[trigger] a.contains(x) ==> !b.contains(x),
    ensures
        (a + b).no_duplicates(),
{
    let s = a + b;
    assert forall|i: int, j: int| 0 <= i < s.len() && 0 <= j < s.len() && i != j implies s[i]
        != s[j] by {
        if i < a.len() && j >= a.len() {
            assert(a.contains(a[i]));
            assert(b.contains(b[j - a.len()]));
        } else if j < a.len() && i >= a.len() {
            assert(a.contains(a[j]));
            assert(b.contains(b[i - a.len()]));
        } else if i < a.len() {
            assert(a[i] != a[j]);
        } else {
            assert(b[i - a.len()] != b[j - a.len()]);
        }
    }
}

/// Where no path is listed twice, neither is a container among them nor another
/// directory.
proof fn lemma_sorts_once(paths: Seq<Seq<char>>)
    requires
        paths.no_duplicates(),
    ensures
        containers_in(paths).no_duplicates(),
        others_in(paths).no_duplicates(),
    decreases paths.len(),
{
    if paths.len() > 0 {
        let init = paths.drop_last();
        let p = paths.last();
        assert forall|i: int, j: int| 0 <= i < init.len() && 0 <= j < init.len() && i != j implies init[i]
            != init[j] by {
            assert(paths[i] != paths[j]);
        }
        lemma_sorts_once(init);
        assert(!init.contains(p)) by {
            if init.contains(p) {
                let i = choose|i: int| 0 <= i < init.len() && init[i] == p;
                assert(paths[i] != paths[paths.len() - 1]);
            }
        }
        match container_at(p) {
            Some(f) => {
                lemma_containers_in(init, f);
                let one = seq![f];
                assert(containers_in(paths) =~= containers_in(init) + one);
                assert forall|x: FoundView| #[trigger] containers_in(init).contains(x) implies !one.contains(
                    x,
                ) by {
                    if one.contains(x) {
                        assert(x == f);
                    }
                }
                lemma_concat_once(containers_in(init), one);
            },
            None => {
                lemma_others_in(init, p);
                let one = seq![p];
                assert(others_in(paths) =~= others_in(init) + one);
                assert forall|x: Seq<char>| #[trigger] others_in(init).contains(x) implies !one.contains(
                    x,
                ) by {
                    if one.contains(x) {
                        assert(x == p);
                    }
                }
                lemma_concat_once(others_in(init), one);
            },
        }
    } else {
        assert(containers_in(paths) =~= Seq::empty());
        assert(others_in(paths) =~= Seq::empty());
    }
}

/// Whether no directory lists a child twice.
pub open spec fn lists_each_once(l: Listing) -> bool {
    forall|dir: Seq<char>| (#[trigger] l(dir)) matches Some(paths) ==> paths.no_duplicates()
}

/// What a directory lists lies directly below it.
proof fn lemma_child(l: Listing, dir: Seq<char>, child: Seq<char>)
    requires
        lists_its_children(l),
        kids(l, dir).contains(child),
    ensures
        parent_of(child) == dir,
        components(child).len() == components(dir).len() + 1,
{
    lemma_kids_are_listed(l, dir, child);
    let name = choose|name: Seq<char>|
        name.len() > 0 && name != "."@ && name != ".."@ && !name.contains('/') && child
            == #[trigger] file_in_of(dir, name);
    law_a_file_is_behind_a_slash(dir, name);
    law_names_and_parents(dir, name);
    lemma_split_last(dir, '/', name);
}

/// A level of a hierarchy holds nothing twice, and lies directly below the one
/// before.
proof fn lemma_level_once(dirs: Seq<Seq<char>>, l: Listing, c: nat)
    requires
        lists_its_children(l),
        lists_each_once(l),
        dirs.no_duplicates(),
        forall|i: int| 0 <= i < dirs.len() ==> components(#[trigger] dirs[i]).len() == c,
    ensures
        level_found(dirs, l).no_duplicates(),
        level_next(dirs, l).no_duplicates(),
        forall|f: FoundView| #[trigger]
            level_found(dirs, l).contains(f) ==> dirs.contains(parent_of(f.path)) && components(
                f.path,
            ).len() == c + 1,
        forall|p: Seq<char>| #[trigger]
            level_next(dirs, l).contains(p) ==> dirs.contains(parent_of(p)) && components(p).len()
                == c + 1,
    decreases dirs.len(),
{
    if dirs.len() > 0 {
        let dir = dirs[0];
        let rest = dirs.drop_first();
        let ks = kids(l, dir);
        assert forall|i: int, j: int| 0 <= i < rest.len() && 0 <= j < rest.len() && i != j implies rest[i]
            != rest[j] by {
            assert(dirs[i + 1] != dirs[j + 1]);
        }
        assert forall|i: int| 0 <= i < rest.len() implies components(#[trigger] rest[i]).len() == c by {
            assert(rest[i] == dirs[i + 1]);
        }
        assert(!rest.contains(dir)) by {
            if rest.contains(dir) {
                let i = choose|i: int| 0 <= i < rest.len() && rest[i] == dir;
                assert(dirs[i + 1] != dirs[0]);
            }
        }
        assert(ks.no_duplicates()) by {
            assert(l(dir) matches Some(paths) ==> paths.no_duplicates());
        }
        lemma_sorts_once(ks);
        lemma_level_once(rest, l, c);
        assert(dirs.contains(dir));
        assert forall|p: Seq<char>| #[trigger] rest.contains(p) implies dirs.contains(p) by {
            lemma_first_or_rest(dirs, p);
        }
        assert forall|f: FoundView| #[trigger] containers_in(ks).contains(f) implies parent_of(
            f.path,
        ) == dir && components(f.path).len() == c + 1 by {
            lemma_containers_in(ks, f);
            lemma_child(l, dir, f.path);
        }
        assert forall|p: Seq<char>| #[trigger] others_in(ks).contains(p) implies parent_of(p) == dir
            && components(p).len() == c + 1 by {
            lemma_others_in(ks, p);
            lemma_child(l, dir, p);
        }
        lemma_concat_once(containers_in(ks), level_found(rest, l));
        lemma_concat_once(others_in(ks), level_next(rest, l));
        assert forall|f: FoundView| #[trigger] level_found(dirs, l).contains(f) implies dirs.contains(
            parent_of(f.path),
        ) && components(f.path).len() == c + 1 by {
            lemma_concat_contains(containers_in(ks), level_found(rest, l), f);
        }
        assert forall|p: Seq<char>| #[trigger] level_next(dirs, l).contains(p) implies dirs.contains(
            parent_of(p),
        ) && components(p).len() == c + 1 by {
            lemma_concat_contains(others_in(ks), level_next(rest, l), p);
        }
    }
}

/// The levels below a level hold nothing twice.
proof fn lemma_below_once(dirs: Seq<Seq<char>>, l: Listing, c: nat, n: nat)
    requires
        lists_its_children(l),
        lists_each_once(l),
        dirs.no_duplicates(),
        forall|i: int| 0 <= i < dirs.len() ==> components(#[trigger] dirs[i]).len() == c,
    ensures
        found_below(dirs, l, n).no_duplicates(),
        forall|f: FoundView| #[trigger]
            found_below(dirs, l, n).contains(f) ==> components(f.path).len() > c,
    decreases n,
{
    if n > 0 {
        let k = (n - 1) as nat;
        let next = level_next(dirs, l);
        lemma_level_once(dirs, l, c);
        assert forall|i: int| 0 <= i < next.len() implies components(#[trigger] next[i]).len() == c + 1 by {
            assert(next.contains(next[i]));
        }
        lemma_below_once(next, l, c + 1, k);
        lemma_concat_once(level_found(dirs, l), found_below(next, l, k));
        assert forall|f: FoundView| #[trigger] found_below(dirs, l, n).contains(f) implies components(
            f.path,
        ).len() > c by {
            lemma_concat_contains(level_found(dirs, l), found_below(next, l, k), f);
        }
    }
}

/// Where directories list their own children, and each once, no container is
/// reported twice.
pub proof fn law_each_container_is_reported_once(l: Listing)
    requires
        lists_its_children(l),
        lists_each_once(l),
    ensures
        discover_of(l).no_duplicates(),
{
    let root = seq![CGROUP_ROOT@];
    let found = run(Walk::start(), l).found;
    law_walk_finds_levels(l);
    lemma_below_once(root, l, components(CGROUP_ROOT@).len(), MAX_DEPTH as nat);
    lemma_sort_keeps(found);
    found.lemma_multiset_has_no_duplicates();
    discover_of(l).lemma_multiset_has_no_duplicates_conv();
}

/// The directory that these names lead to from the root of the hierarchy.
pub open spec fn chain(names: Seq<Seq<char>>) -> Seq<char>
    decreases names.len(),
{
    if names.len() == 0 {
        "/sys/fs/cgroup"@
    } else {
        chain(names.drop_last()) + seq!['/'] + names.last()
    }
}

/// Whether the directory of the chain behind the first `k` is listed by the one
/// above it.
pub open spec fn is_listed_above(l: Listing, names: Seq<Seq<char>>, k: int) -> bool {
    l(chain(names.take(k))) matches Some(paths) && paths.contains(chain(names.take(k + 1)))
}

/// Whether a name is that of an ordinary directory: neither a scope nor long enough
/// and hexadecimal throughout, as an ID is.
pub open spec fn is_ordinary(name: Seq<char>) -> bool {
    &&& name.len() > 0 && name != "."@ && name != ".."@ && !name.contains('/')
    &&& forall|base: Seq<char>| name != #[trigger] (base + ".scope"@)
    &&& name.len() < 12 || exists|i: int|
        0 <= i < name.len() && !('0' <= #[trigger] name[i] <= '9' || 'a' <= name[i] <= 'f' || 'A'
            <= name[i] <= 'F')
}

/// An ordinary directory below one that may be listed may be listed, and is no
/// container.
proof fn lemma_ordinary(dir: Seq<char>, name: Seq<char>)
    requires
        may_list(dir),
        is_ordinary(name),
    ensures
        may_list(dir + seq!['/'] + name),
        container_at(dir + seq!['/'] + name) is None,
{
    let path = dir + seq!['/'] + name;
    law_a_file_is_behind_a_slash(dir, name);
    law_what_may_be_listed(path);
    law_names_and_parents(dir, name);
    law_only_the_layouts_are_recognized(path);
    match container_at(path) {
        Some(f) => {
            assert(name != ("docker-"@ + f.id) + ".scope"@);
            assert(name != ("libpod-"@ + f.id) + ".scope"@);
            assert(name != ("cri-containerd-"@ + f.id) + ".scope"@);
            assert(name != ("crio-"@ + f.id) + ".scope"@);
        },
        None => {},
    }
}

/// A chain of ordinary directories, each listed by the one before, is walked.
proof fn lemma_chain(l: Listing, names: Seq<Seq<char>>)
    requires
        forall|k: int| 0 <= k < names.len() ==> is_ordinary(#[trigger] names[k]),
        forall|k: int|
            0 <= k < names.len() ==> #[trigger] is_listed_above(l, names, k),
    ensures
        may_list(chain(names)),
        reachable(l, chain(names), names.len()),
    decreases names.len(),
{
    if names.len() == 0 {
        law_what_may_be_listed(chain(names));
    } else {
        let n = names.len() - 1;
        let init = names.drop_last();
        assert(names.take(n) =~= init);
        assert(names.take(n + 1) =~= names);
        assert forall|k: int| 0 <= k < init.len() implies is_ordinary(#[trigger] init[k]) by {
            assert(is_ordinary(names[k]));
        }
        assert forall|k: int| 0 <= k < init.len() implies #[trigger] is_listed_above(l, init, k) by {
            assert(is_listed_above(l, names, k));
            assert(init.take(k) =~= names.take(k));
            assert(init.take(k + 1) =~= names.take(k + 1));
        }
        lemma_chain(l, init);
        assert(is_ordinary(names[n]));
        lemma_ordinary(chain(init), names.last());
        assert(is_listed_above(l, names, n));
        assert(lists(l, chain(init), chain(names)));
        assert((names.len() - 1) as nat == init.len());
    }
}

/// The scope of a container is found wherever it stands fewer than six ordinary
/// directories below the root, whatever they are called and whichever of the four
/// runtimes made it, and so is a container named by its ID alone below `docker`.
pub proof fn law_a_container_below_ordinary_directories_is_found(
    l: Listing,
    names: Seq<Seq<char>>,
    id: Seq<char>,
)
    requires
        names.len() < 6,
        forall|k: int| 0 <= k < names.len() ==> is_ordinary(#[trigger] names[k]),
        forall|k: int|
            0 <= k < names.len() ==> #[trigger] is_listed_above(l, names, k),
        id.len() >= 12,
        forall|i: int|
            0 <= i < id.len() ==> '0' <= #[trigger] id[i] <= '9' || 'a' <= id[i] <= 'f' || 'A'
                <= id[i] <= 'F',
    ensures
        l(chain(names)) matches Some(paths) ==> {
            let in_dir = |name: Seq<char>| chain(names) + seq!['/'] + name;
            let docker = in_dir("docker-"@ + id + ".scope"@);
            let podman = in_dir("libpod-"@ + id + ".scope"@);
            let containerd = in_dir("cri-containerd-"@ + id + ".scope"@);
            let crio = in_dir("crio-"@ + id + ".scope"@);
            let bare = in_dir(id);
            &&& paths.contains(docker) ==> discover_of(l).contains(
                FoundView { id, runtime: "docker"@, path: docker },
            )
            &&& paths.contains(podman) ==> discover_of(l).contains(
                FoundView { id, runtime: "podman"@, path: podman },
            )
            &&& paths.contains(containerd) ==> discover_of(l).contains(
                FoundView { id, runtime: "containerd"@, path: containerd },
            )
            &&& paths.contains(crio) ==> discover_of(l).contains(
                FoundView { id, runtime: "cri-o"@, path: crio },
            )
            &&& paths.contains(bare) && names.len() > 0 && names.last() == "docker"@ ==> discover_of(
                l,
            ).contains(FoundView { id, runtime: "docker"@, path: bare })
        },
{
    let dir = chain(names);
    lemma_chain(l, names);
    law_every_layout_is_recognized(dir, id);
    if names.len() > 0 && names.last() == "docker"@ {
        law_every_layout_is_recognized(chain(names.drop_last()), id);
    }
    match l(dir) {
        Some(paths) => {
            let docker = dir + seq!['/'] + ("docker-"@ + id + ".scope"@);
            let podman = dir + seq!['/'] + ("libpod-"@ + id + ".scope"@);
            let containerd = dir + seq!['/'] + ("cri-containerd-"@ + id + ".scope"@);
            let crio = dir + seq!['/'] + ("crio-"@ + id + ".scope"@);
            let bare = dir + seq!['/'] + id;
            lemma_listed_is_found(l, dir, names.len(), docker);
            lemma_listed_is_found(l, dir, names.len(), podman);
            lemma_listed_is_found(l, dir, names.len(), containerd);
            lemma_listed_is_found(l, dir, names.len(), crio);
            lemma_listed_is_found(l, dir, names.len(), bare);
        },
        None => {},
    }
}

/// A container that a reachable directory lists is found.
proof fn lemma_listed_is_found(l: Listing, dir: Seq<char>, d: nat, path: Seq<char>)
    requires
        reachable(l, dir, d),
        d < MAX_DEPTH,
        may_list(dir),
    ensures
        (l(dir) matches Some(paths) && paths.contains(path)) ==> (container_at(path) matches Some(f)
            ==> discover_of(l).contains(f)),
{
    match container_at(path) {
        Some(f) => {
            law_discovery_finds_exactly(l, f);
            if l(dir) matches Some(paths) && paths.contains(path) {
                assert(lists(l, dir, f.path));
                assert(reachable(l, dir, d) && d < MAX_DEPTH && lists(l, dir, f.path));
            }
        },
        None => {},
    }
}

} // verus!
