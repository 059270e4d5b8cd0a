//! What a container is running: the distinct names of its processes.
//!
//! A process is named by the kernel's own short name for it, its `comm`, which is
//! structurally incapable of holding a command line and so of leaking the
//! credentials that command lines carry.
use vstd::prelude::*;

use crate::discovery::texts;
use crate::number::{decimal, lemma_decimal_solid};
use crate::order::{
    in_order, law_strictly_ascending, lemma_ascending_unique, lemma_le_antisymmetric, lemma_le_total, lemma_le_transitive,
    strictly_ascending, text_le, text_lt,
};
use crate::text::{
    is_white, law_trimming_strips_the_ends, law_whitespace_separates_words, trim, trim_of, views, words,
    words_of,
};

verus! {

broadcast use vstd::string::group_string_axioms;

/// Whether one of the `comm` files read holds the name `name`: what is in it,
/// whitespace around it aside. An empty name is none.
pub open spec fn named(comms: Seq<Option<String>>, name: Seq<char>) -> bool {
    name.len() > 0 && exists|i: int|
        0 <= i < comms.len() && (#[trigger] comms[i] matches Some(content) && trim_of(content@)
            == name)
}

/// Whether `names` are the distinct names that the `comm` files read hold, in
/// order.
pub open spec fn are_names(names: Seq<Seq<char>>, comms: Seq<Option<String>>) -> bool {
    &&& strictly_ascending(names)
    &&& forall|name: Seq<char>| #[trigger] names.contains(name) <==> named(comms, name)
}

/// Put `name` in its place among `names`, unless it is there.
fn insert_name(names: &mut Vec<String>, name: &str)
    requires
        strictly_ascending(texts(old(names)@)),
    ensures
        strictly_ascending(texts(final(names)@)),
        forall|x: Seq<char>| #[trigger]
            texts(final(names)@).contains(x) <==> texts(old(names)@).contains(x) || x == name@,
{
    let ghost s = texts(names@);
    let mut p: usize = names.len();
    while p > 0 && !in_order(names[p - 1].as_str(), name)
        invariant
            p <= names@.len(),
            s == texts(names@),
            names@ == old(names)@,
            forall|k: int| p <= k < s.len() ==> !text_le(#[trigger] s[k], name@),
        decreases p,
    {
        assert(s[p - 1] == names@[p - 1]@);
        p = p - 1;
    }
    if p > 0 {
        let last = names[p - 1].as_str();
        assert(s[p - 1] == last@);
        if in_order(name, last) {
            proof {
                lemma_le_antisymmetric(name@, last@);
                assert(s.contains(name@));
            }
            return ;
        }
        proof {
            crate::order::lemma_le_reflexive(name@);
            assert(text_lt(s[p - 1], name@));
        }
    }
    let owned = name.to_owned();
    proof {
        let t = texts(names@.insert(p as int, owned));
        assert(t =~= s.insert(p as int, name@));
        assert forall|i: int, j: int| 0 <= i < j < t.len() implies text_lt(
            #[trigger] t[i],
            #[trigger] t[j],
        ) by {
            let a = if i < p {
                i
            } else {
                i - 1
            };
            let b = if j < p {
                j
            } else {
                j - 1
            };
            if i != p && j != p {
                assert(text_lt(s[a], s[b]));
            } else if i == p {
                assert(!text_le(s[b], name@));
                lemma_le_total(s[b], name@);
            } else {
                if i < p - 1 {
                    assert(text_lt(s[i], s[p - 1]));
                    lemma_le_transitive(s[i], s[p - 1], name@);
                    if s[i] == name@ {
                        lemma_le_antisymmetric(s[p - 1], name@);
                    }
                }
            }
        }
        assert forall|x: Seq<char>| #[trigger] t.contains(x) <==> s.contains(x) || x == name@ by {
            if t.contains(x) {
                let i = choose|i: int| 0 <= i < t.len() && t[i] == x;
                if i < p {
                    assert(s[i] == x);
                } else if i > p {
                    assert(s[i - 1] == x);
                }
            }
            if s.contains(x) {
                let i = choose|i: int| 0 <= i < s.len() && s[i] == x;
                if i < p {
                    assert(t[i] == x);
                } else {
                    assert(t[i + 1] == x);
                }
            }
            assert(t[p as int] == name@);
        }
    }
    names.insert(p, owned);
}

/// The distinct names that the `comm` files read hold, in order. A file that
/// could not be read names nothing: its process has exited.
pub fn process_names(comms: &Vec<Option<String>>) -> (r: Vec<String>)
    ensures
        are_names(texts(r@), comms@),
{
    let mut r: Vec<String> = Vec::new();
    let mut i: usize = 0;
    assert(comms@.take(0) =~= Seq::empty());
    while i < comms.len()
        invariant
            i <= comms@.len(),
            are_names(texts(r@), comms@.take(i as int)),
        decreases comms@.len() - i,
    {
        let ghost done = comms@.take(i as int);
        let ghost more = comms@.take(i + 1);
        let ghost before = texts(r@);
        assert(more =~= done.push(comms@[i as int]));
        proof {
            assert forall|x: Seq<char>| #[trigger] named(more, x) <==> named(done, x) || (x.len()
                > 0 && (comms@[i as int] matches Some(content) && trim_of(content@) == x)) by {
                if named(more, x) {
                    let k = choose|k: int|
                        0 <= k < more.len() && (#[trigger] more[k] matches Some(content)
                            && trim_of(content@) == x);
                    if k < i {
                        assert(done[k] == more[k]);
                    }
                }
                if named(done, x) {
                    let k = choose|k: int|
                        0 <= k < done.len() && (#[trigger] done[k] matches Some(content)
                            && trim_of(content@) == x);
                    assert(more[k] == done[k]);
                }
                assert(more[i as int] == comms@[i as int]);
            }
        }
        if let Some(content) = &comms[i] {
            let name = trim(content.as_str());
            if !name.is_empty() {
                insert_name(&mut r, name);
            }
        }
        proof {
            let names = texts(r@);
            assert forall|x: Seq<char>| #[trigger] names.contains(x) <==> named(more, x) by {
                assert(before.contains(x) <==> named(done, x));
            }
        }
        i = i + 1;
    }
    assert(comms@.take(i as int) =~= comms@);
    r
}

/// Distinct process names in a container, and how many processes it holds, given
/// the content of its `cgroup.procs`, where that could be read, and of the `comm`
/// of each process listed there, where that could be.
///
/// Every process is named, with no sampling.
pub fn identify(procs: Option<&str>, comms: &Vec<Option<String>>) -> (r: (Vec<String>, usize))
    ensures
        match procs {
            None => r.0@.len() == 0 && r.1 == 0,
            Some(text) => are_names(texts(r.0@), comms@) && r.1 == words_of(text@).len(),
        },
{
    match procs {
        None => (Vec::new(), 0),
        Some(text) => {
            let pids = words(text);
            assert(views(pids@).len() == pids@.len());
            (process_names(comms), pids.len())
        },
    }
}

/// The names depend only on which names the processes have, not on how many
/// processes share one or in what order they were read.
pub proof fn law_names_ignore_order(
    a: Seq<Seq<char>>,
    b: Seq<Seq<char>>,
    x: Seq<Option<String>>,
    y: Seq<Option<String>>,
)
    requires
        are_names(a, x),
        are_names(b, y),
        forall|name: Seq<char>| #[trigger] named(x, name) <==> named(y, name),
    ensures
        a == b,
{
    assert forall|n: Seq<char>| #[trigger] a.contains(n) <==> b.contains(n) by {
        assert(named(x, n) <==> named(y, n));
    }
    lemma_ascending_unique(a, b);
}

/// The file that holds the name of the process `pid`.
pub open spec fn comm_path_of(pid: Seq<char>) -> Seq<char> {
    "/proc/"@ + pid + "/comm"@
}

/// The file that holds the name of the process `pid`.
pub fn comm_path(pid: &str) -> (r: String)
    ensures
        r@ == comm_path_of(pid@),
{
    let mut r = "/proc/".to_owned();
    r.append(pid);
    r.append("/comm");
    r
}

/// The files that hold the names of the processes listed in `procs`, in order.
pub open spec fn comm_paths_of(procs: Seq<char>) -> Seq<Seq<char>> {
    Seq::new(words_of(procs).len(), |i: int| comm_path_of(words_of(procs)[i]))
}

/// The files that hold the names of the processes of a container, given the
/// content of its `cgroup.procs`: one for each process, in the order listed.
pub fn comm_paths(procs: &str) -> (r: Vec<String>)
    ensures
        texts(r@) == comm_paths_of(procs@),
{
    let pids = words(procs);
    let mut r: Vec<String> = Vec::new();
    let mut i: usize = 0;
    assert(views(pids@).len() == pids@.len());
    while i < pids.len()
        invariant
            i <= pids@.len(),
            r@.len() == i,
            views(pids@) == words_of(procs@),
            forall|j: int| 0 <= j < i ==> #[trigger] r@[j]@ == comm_path_of(pids@[j]@),
        decreases pids@.len() - i,
    {
        r.push(comm_path(pids[i]));
        i = i + 1;
    }
    proof {
        let w = words_of(procs@);
        assert forall|j: int| 0 <= j < w.len() implies #[trigger] texts(r@)[j] == comm_path_of(
            w[j],
        ) by {
            assert(w[j] == pids@[j]@);
            assert(r@[j]@ == comm_path_of(pids@[j]@));
        }
        assert(texts(r@) =~= comm_paths_of(procs@));
    }
    r
}

/// The names are exactly those that the files hold, whitespace at their ends aside:
/// what a file holds is among them, each of them is held by a file, and they stand in
/// order without repetition.
pub proof fn law_the_names_are_those_in_the_files(
    names: Seq<Seq<char>>,
    comms: Seq<Option<String>>,
    i: int,
    lead: Seq<char>,
    name: Seq<char>,
    trail: Seq<char>,
)
    requires
        are_names(names, comms),
        forall|k: int| 0 <= k < lead.len() ==> is_white(#[trigger] lead[k]),
        forall|k: int| 0 <= k < trail.len() ==> is_white(#[trigger] trail[k]),
        name.len() > 0,
        !is_white(name[0]),
        !is_white(name.last()),
    ensures
        0 <= i < comms.len() && (comms[i] matches Some(content) && content@ == lead + name + trail)
            ==> names.contains(name),
        forall|k: int|
            0 <= k < names.len() ==> (#[trigger] names[k]).len() > 0 && exists|j: int|
                0 <= j < comms.len() && (#[trigger] comms[j] matches Some(content) && trim_of(
                    content@,
                ) == names[k]),
        forall|j: int, k: int|
            0 <= j < k < names.len() ==> text_le(#[trigger] names[j], #[trigger] names[k])
                && names[j] != names[k],
{
    law_strictly_ascending(names);
    law_trimming_strips_the_ends(lead, name, trail);
    if 0 <= i < comms.len() && (comms[i] matches Some(content) && content@ == lead + name + trail) {
        assert(named(comms, name));
    }
    assert forall|k: int| 0 <= k < names.len() implies (#[trigger] names[k]).len() > 0 && exists|
        j: int,
    |
        0 <= j < comms.len() && (#[trigger] comms[j] matches Some(content) && trim_of(content@)
            == names[k]) by {
        assert(names.contains(names[k]));
        assert(named(comms, names[k]));
    }
}

/// `cgroup.procs` as the kernel writes it: a process ID on each line.
pub open spec fn procs_text(pids: Seq<u32>) -> Seq<char>
    decreases pids.len(),
{
    if pids.len() == 0 {
        Seq::empty()
    } else {
        procs_text(pids.drop_last()) + decimal(pids.last() as nat) + seq!['\n']
    }
}

/// The words of `cgroup.procs` are the process IDs in it.
proof fn lemma_procs_words(pids: Seq<u32>)
    ensures
        words_of(procs_text(pids)).len() == pids.len(),
        forall|i: int|
            0 <= i < pids.len() ==> #[trigger] words_of(procs_text(pids))[i] == decimal(
                pids[i] as nat,
            ),
    decreases pids.len(),
{
    let nothing = Seq::<char>::empty();
    law_whitespace_separates_words(nothing, '\n', nothing);
    if pids.len() > 0 {
        let init = pids.drop_last();
        let word = decimal(pids.last() as nat);
        lemma_procs_words(init);
        lemma_decimal_solid(pids.last() as nat);
        law_whitespace_separates_words(word, '\n', nothing);
        assert(words_of(word + seq!['\n'] + nothing) =~= seq![word]);
        assert(word + seq!['\n'] + nothing =~= word + seq!['\n']);
        let text = procs_text(pids);
        let above = procs_text(init);
        if init.len() > 0 {
            let most = above.drop_last();
            assert(above =~= most + seq!['\n']);
            law_whitespace_separates_words(most, '\n', nothing);
            assert(most + seq!['\n'] + nothing =~= above);
            law_whitespace_separates_words(most, '\n', word + seq!['\n']);
            assert(text =~= most + seq!['\n'] + (word + seq!['\n']));
            assert(words_of(text) =~= words_of(above) + seq![word]);
        } else {
            assert(above =~= nothing);
            assert(text =~= word + seq!['\n']);
            assert(words_of(text) =~= words_of(above) + seq![word]);
        }
        assert forall|i: int| 0 <= i < pids.len() implies #[trigger] words_of(text)[i] == decimal(
            pids[i] as nat,
        ) by {
            if i < init.len() {
                assert(words_of(above)[i] == decimal(init[i] as nat));
            }
        }
    }
}

/// Every process that `cgroup.procs` lists is counted and is named by its own file,
/// none is left out and none is added.
pub proof fn law_every_process_is_named_by_its_file(pids: Seq<u32>)
    ensures
        words_of(procs_text(pids)).len() == pids.len(),
        comm_paths_of(procs_text(pids)).len() == pids.len(),
        forall|i: int|
            0 <= i < pids.len() ==> #[trigger] comm_paths_of(procs_text(pids))[i] == "/proc/"@
                + decimal(pids[i] as nat) + "/comm"@,
{
    lemma_procs_words(pids);
    assert forall|i: int| 0 <= i < pids.len() implies #[trigger] comm_paths_of(procs_text(pids))[i]
        == "/proc/"@ + decimal(pids[i] as nat) + "/comm"@ by {
        assert(words_of(procs_text(pids))[i] == decimal(pids[i] as nat));
    }
}

} // verus!
