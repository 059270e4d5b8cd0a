//! The cgroup v2 hierarchy: how its files are shaped and how a container is
//! recognized in it.
//!
//! Limits and accounting read the same whatever created the container. Only
//! recognition is specific to a runtime: by the name of a scope in [`classify`],
//! and by where a directory stands in [`crate::discovery::recognize`].
use vstd::prelude::*;

use crate::number::{
    decimal, is_digit, law_decimal_reads_back, law_numbers_are_read_by_value,
    law_only_digits_are_numbers, lemma_decimal, lemma_decimal_solid, padded, parse_u64, u64_of,
    unsigned_body,
};
use crate::table::{
    are_lines, lemma_keys_differ, lemma_row_found, lemma_row_missing, lemma_table_lines, table, Row,
};
use crate::text::{
    after, before, begins, but, char_vec, find_after, first_after, first_with, is_white,
    lemma_begins_once, lemma_first_with_concat, lemma_first_word, lemma_line, lemma_lines_concat,
    lemma_span_is, lemma_trim, lemma_trim_solid, lines, lines_of, same, strip_prefix, strip_suffix,
    trim, trim_of, words, words_of,
};

verus! {

broadcast use vstd::string::group_string_axioms;

/// Shortest container ID treated as real.
///
/// Every runtime in [`classify`] uses a 64-character hex ID; the bound is well
/// below that so a runtime with short IDs still works, and long enough that a
/// stray word cannot pass as one.
pub const MIN_ID_LEN: usize = 12;

/// A container found in the hierarchy.
pub struct Found {
    pub id: String,
    pub runtime: &'static str,
    pub path: String,
}

/// A found container with its strings taken as characters.
pub struct FoundView {
    pub id: Seq<char>,
    pub runtime: Seq<char>,
    pub path: Seq<char>,
}

impl View for Found {
    type V = FoundView;

    open spec fn view(&self) -> FoundView {
        FoundView { id: self.id@, runtime: self.runtime@, path: self.path@ }
    }
}

/// Whether `c` is an ASCII hexadecimal digit.
pub open spec fn is_hex(c: char) -> bool {
    '0' <= c <= '9' || 'a' <= c <= 'f' || 'A' <= c <= 'F'
}

/// Whether `s` has the form of a container ID.
pub open spec fn is_container_id(s: Seq<char>) -> bool {
    s.len() >= MIN_ID_LEN && forall|i: int| 0 <= i < s.len() ==> is_hex(#[trigger] s[i])
}

/// The container ID in `base`, where it is `prefix` followed by one.
pub open spec fn id_after(base: Seq<char>, prefix: Seq<char>) -> Option<Seq<char>> {
    match after(base, prefix) {
        Some(id) => if is_container_id(id) {
            Some(id)
        } else {
            None
        },
        None => None,
    }
}

/// The runtime and the container ID that the directory name `name` stands for.
pub open spec fn classify_of(name: Seq<char>) -> Option<(Seq<char>, Seq<char>)> {
    match before(name, ".scope"@) {
        None => None,
        Some(base) => match id_after(base, "docker-"@) {
            Some(id) => Some(("docker"@, id)),
            None => match id_after(base, "libpod-"@) {
                Some(id) => Some(("podman"@, id)),
                None => match id_after(base, "cri-containerd-"@) {
                    Some(id) => Some(("containerd"@, id)),
                    None => match id_after(base, "crio-"@) {
                        Some(id) => Some(("cri-o"@, id)),
                        None => None,
                    },
                },
            },
        },
    }
}

/// Whether `s` has the form of a container ID.
pub fn container_id(s: &str) -> (r: bool)
    ensures
        r == is_container_id(s@),
{
    let v = char_vec(s);
    if v.len() < MIN_ID_LEN {
        return false;
    }
    let mut i: usize = 0;
    while i < v.len()
        invariant
            i <= v@.len(),
            v@ == s@,
            forall|j: int| 0 <= j < i ==> is_hex(#[trigger] s@[j]),
        decreases v@.len() - i,
    {
        let c = v[i];
        if !(('0' <= c && c <= '9') || ('a' <= c && c <= 'f') || ('A' <= c && c <= 'F')) {
            assert(!is_hex(s@[i as int]));
            return false;
        }
        i = i + 1;
    }
    true
}

/// The container ID in `base`, where it is `prefix` followed by one.
///
/// A prefix match is not enough. podman gives its per-container monitor process
/// a sibling `libpod-conmon-<id>.scope`, which would otherwise be reported as a
/// second container that does not exist.
fn scope_id(base: &str, prefix: &str) -> (r: Option<String>)
    ensures
        match r {
            Some(id) => id_after(base@, prefix@) == Some(id@),
            None => id_after(base@, prefix@) is None,
        },
{
    match strip_prefix(base, prefix) {
        Some(id) => if container_id(id) {
            Some(id.to_owned())
        } else {
            None
        },
        None => None,
    }
}

/// Recognize a container from its cgroup directory name.
pub fn classify(dir_name: &str) -> (r: Option<(&'static str, String)>)
    ensures
        match r {
            Some((runtime, id)) => classify_of(dir_name@) == Some((runtime@, id@)),
            None => classify_of(dir_name@) is None,
        },
{
    let base = match strip_suffix(dir_name, ".scope") {
        Some(base) => base,
        None => {
            return None;
        },
    };
    if let Some(id) = scope_id(base, "docker-") {
        return Some(("docker", id));
    }
    if let Some(id) = scope_id(base, "libpod-") {
        return Some(("podman", id));
    }
    if let Some(id) = scope_id(base, "cri-containerd-") {
        return Some(("containerd", id));
    }
    if let Some(id) = scope_id(base, "crio-") {
        return Some(("cri-o", id));
    }
    None
}

/// The path of `name` in the directory `dir`.
pub open spec fn file_in_of(dir: Seq<char>, name: Seq<char>) -> Seq<char> {
    dir + "/"@ + name
}

/// The path of `name` in the directory `dir`.
pub fn file_in(dir: &str, name: &str) -> (r: String)
    ensures
        r@ == file_in_of(dir@, name@),
{
    let mut r = dir.to_owned();
    r.append("/");
    r.append(name);
    r
}

/// The number on the first line of `text` that is `key`, a space and a number.
pub open spec fn keyed_of(text: Seq<char>, key: Seq<char>) -> Option<u64> {
    match first_after(lines_of(text), key + " "@) {
        Some(value) => u64_of(trim_of(value)),
        None => None,
    }
}

/// The number that the whole of `text` is, whitespace around it aside.
pub open spec fn single_of(text: Seq<char>) -> Option<u64> {
    u64_of(trim_of(text))
}

/// The limit that the whole of `text` is: none where it is the word `max`.
pub open spec fn limit_of(text: Seq<char>) -> Option<u64> {
    if trim_of(text) == "max"@ {
        None
    } else {
        u64_of(trim_of(text))
    }
}

/// The quota and the period that are the first two words of `text`, where a
/// quota is set.
pub open spec fn cpu_max_of(text: Seq<char>) -> Option<(u64, u64)> {
    let f = words_of(text);
    if f.len() < 2 {
        None
    } else {
        match (limit_of(f[0]), u64_of(f[1])) {
            (Some(quota), Some(period)) => Some((quota, period)),
            _ => None,
        }
    }
}

/// One `key value` line, as found in `cpu.stat` and `memory.events`.
pub fn keyed(text: &str, key: &str) -> (r: Option<u64>)
    ensures
        r == keyed_of(text@, key@),
{
    let mut label = key.to_owned();
    label.append(" ");
    match find_after(&lines(text), label.as_str()) {
        Some(value) => parse_u64(trim(value)),
        None => None,
    }
}

/// A file holding one number, as `memory.current` and `pids.current` do.
pub fn single(text: &str) -> (r: Option<u64>)
    ensures
        r == single_of(text@),
{
    parse_u64(trim(text))
}

/// A limit file, where the literal `max` means no limit is set.
///
/// An unset limit is a fact worth reporting, not a missing reading. The caller
/// tells the two apart by whether the surrounding block is present at all.
pub fn limit(text: &str) -> (r: Option<u64>)
    ensures
        r == limit_of(text@),
{
    let value = trim(text);
    if same(value, "max") {
        None
    } else {
        parse_u64(value)
    }
}

/// `cpu.max`, which is `quota period` where quota may be the literal `max`.
///
/// The pair comes only where a quota is set: the period alone says nothing,
/// since it has a default whether or not anything is limited.
pub fn cpu_max(text: &str) -> (r: Option<(u64, u64)>)
    ensures
        r == cpu_max_of(text@),
{
    let f = words(text);
    assert(crate::text::views(f@).len() == f@.len());
    if f.len() < 2 {
        return None;
    }
    assert(crate::text::views(f@)[0] == f@[0]@);
    assert(crate::text::views(f@)[1] == f@[1]@);
    match (limit(f[0]), parse_u64(f[1])) {
        (Some(quota), Some(period)) => Some((quota, period)),
        _ => None,
    }
}

/// A number that the kernel wrote into a file of its own, with a newline behind it,
/// is read back as itself.
pub proof fn law_single_reads_back(n: u64)
    ensures
        single_of(decimal(n as nat) + seq!['\n']) == Some(n),
        limit_of(decimal(n as nat) + seq!['\n']) == Some(n),
{
    reveal_strlit("max");
    let s = decimal(n as nat);
    lemma_decimal_solid(n as nat);
    lemma_decimal(n as nat);
    let nothing = Seq::<char>::empty();
    lemma_trim(nothing, s, seq!['\n']);
    assert(nothing + s + seq!['\n'] =~= s + seq!['\n']);
    law_decimal_reads_back(n);
    assert(is_digit(s[0]));
    assert("max"@[0] == 'm');
}

/// The word `max` is no number: an unset limit is never mistaken for one, and a
/// limit that is set reads as the number it is.
pub proof fn law_max_is_no_number(text: Seq<char>)
    ensures
        limit_of(text) == single_of(text),
        trim_of(text) == "max"@ ==> single_of(text) is None,
{
    reveal_strlit("max");
    if trim_of(text) == "max"@ {
        let body = unsigned_body("max"@);
        assert("max"@[0] == 'm');
        assert(body == "max"@);
        assert(!is_digit(body[0]));
    }
}

/// A counter is read back as what was written, wherever its line stands, provided
/// no earlier line has the same key.
pub proof fn law_keyed_reads_back(head: Seq<char>, key: Seq<char>, n: u64, tail: Seq<char>)
    requires
        head.len() > 0 ==> head.last() == '\n',
        first_with(lines_of(head), key + " "@) is None,
        !key.contains('\n'),
    ensures
        keyed_of(
            head + (key + " "@ + decimal(n as nat) + seq!['\n'] + tail),
            key,
        ) == Some(n),
{
    reveal_strlit(" ");
    let value = decimal(n as nat);
    lemma_decimal_solid(n as nat);
    lemma_decimal(n as nat);
    let label = key + " "@;
    let line = label + value;
    assert(!line.contains('\n')) by {
        if line.contains('\n') {
            let i = choose|i: int| 0 <= i < line.len() && line[i] == '\n';
            if i < key.len() {
                assert(key[i] == '\n');
            } else if i > key.len() {
                assert(value[i - label.len()] == '\n');
            }
        }
    }
    assert(line.last() == value.last());
    lemma_line(line, tail);
    let own = line + seq!['\n'] + tail;
    lemma_lines_concat(head, own);
    let text = head + own;
    assert(text =~= head + (key + " "@ + value + seq!['\n'] + tail));
    lemma_first_with_concat(lines_of(head), lines_of(own), label);
    assert(lines_of(own)[0] == line);
    assert(line.take(label.len() as int) =~= label);
    assert(begins(line, label));
    assert(line.skip(label.len() as int) =~= value);
    lemma_trim_solid(value);
    law_decimal_reads_back(n);
}

/// A key is matched whole: a line whose key merely begins with it does not count.
pub proof fn law_keyed_needs_the_whole_key(key: Seq<char>, more: Seq<char>, value: Seq<char>)
    requires
        more.len() > 0,
        more[0] != ' ',
        !(key + more + value).contains('\n'),
    ensures
        keyed_of(key + more + value, key) is None,
{
    reveal_strlit(" ");
    let s = key + more + value;
    assert forall|i: int| 0 <= i < s.len() implies but('\n')(#[trigger] s[i]) by {
        assert(s.contains(s[i]));
    }
    lemma_span_is(s, but('\n'), s.len() as int);
    assert(lines_of(s) =~= seq![s]);
    let label = key + " "@;
    let n = key.len() as int;
    assert(s[n] == more[0]);
    assert(label[n] == ' ');
    if begins(s, label) {
        assert(s.take(label.len() as int)[n] == s[n]);
    }
    assert(seq![s].drop_first() =~= Seq::<Seq<char>>::empty());
    assert(first_with(seq![s].drop_first(), label) is None);
}

/// A quota and a period are read back as what was written.
pub proof fn law_cpu_max_reads_back(quota: u64, period: u64)
    ensures
        cpu_max_of(
            decimal(quota as nat) + seq![' '] + decimal(period as nat) + seq!['\n'],
        ) == Some((quota, period)),
{
    reveal_strlit("max");
    let q = decimal(quota as nat);
    let p = decimal(period as nat);
    lemma_decimal_solid(quota as nat);
    lemma_decimal_solid(period as nat);
    lemma_decimal(quota as nat);
    let nothing = Seq::<char>::empty();
    let rest = seq![' '] + p + seq!['\n'];
    let text = q + seq![' '] + p + seq!['\n'];
    assert(text =~= nothing + q + rest);
    lemma_first_word(nothing, q, rest);
    lemma_first_word(seq![' '], p, seq!['\n']);
    let f = words_of(text);
    assert(f[0] == q);
    assert(f[1] == p);
    lemma_trim_solid(q);
    law_decimal_reads_back(quota);
    law_decimal_reads_back(period);
    assert(is_digit(q[0]));
    assert("max"@[0] == 'm');
}

/// The period alone is never mistaken for a limit: where the quota is `max`, there
/// is none, whatever follows.
pub proof fn law_no_quota_no_limit(rest: Seq<char>)
    requires
        rest.len() > 0 ==> is_white(rest[0]),
    ensures
        cpu_max_of("max"@ + rest) is None,
{
    reveal_strlit("max");
    let nothing = Seq::<char>::empty();
    assert("max"@ + rest =~= nothing + "max"@ + rest);
    lemma_first_word(nothing, "max"@, rest);
    let f = words_of("max"@ + rest);
    assert(f[0] == "max"@);
    lemma_trim_solid("max"@);
}

/// The prefix that a runtime puts before the ID in the name of a container's scope.
pub open spec fn scope_prefix(runtime: Seq<char>) -> Option<Seq<char>> {
    if runtime == "docker"@ {
        Some("docker-"@)
    } else if runtime == "podman"@ {
        Some("libpod-"@)
    } else if runtime == "containerd"@ {
        Some("cri-containerd-"@)
    } else if runtime == "cri-o"@ {
        Some("crio-"@)
    } else {
        None
    }
}

proof fn lemma_prefix_literals()
    ensures
        "docker-"@.len() == 7,
        "docker-"@[0] == 'd',
        "libpod-"@.len() == 7,
        "libpod-"@[0] == 'l',
        "cri-containerd-"@.len() == 15,
        "cri-containerd-"@[0] == 'c',
        "cri-containerd-"@[3] == '-',
        "crio-"@.len() == 5,
        "crio-"@[0] == 'c',
        "crio-"@[3] == 'o',
        "docker"@.len() == 6,
        "podman"@.len() == 6,
        "docker"@[0] == 'd',
        "podman"@[0] == 'p',
        "containerd"@.len() == 10,
        "cri-o"@.len() == 5,
{
    reveal_strlit("docker-");
    reveal_strlit("libpod-");
    reveal_strlit("cri-containerd-");
    reveal_strlit("crio-");
    reveal_strlit("docker");
    reveal_strlit("podman");
    reveal_strlit("containerd");
    reveal_strlit("cri-o");
}

/// A container is recognized under each runtime by the scope that the runtime
/// names after it, with the runtime's own name and the ID it was given.
pub proof fn law_classify_reads_back(runtime: Seq<char>, id: Seq<char>)
    requires
        scope_prefix(runtime) is Some,
        is_container_id(id),
    ensures
        classify_of(scope_prefix(runtime)->0 + id + ".scope"@) == Some((runtime, id)),
{
    lemma_prefix_literals();
    let prefix = scope_prefix(runtime)->0;
    let base = prefix + id;
    let name = base + ".scope"@;
    assert(name.skip(name.len() - ".scope"@.len()) =~= ".scope"@);
    assert(name.take(name.len() - ".scope"@.len()) =~= base);
    assert(base.take(prefix.len() as int) =~= prefix);
    assert(base.skip(prefix.len() as int) =~= id);
    assert(begins(base, prefix));
    assert(id_after(base, prefix) == Some(id));
    if prefix != "docker-"@ {
        lemma_begins_once(base, prefix, "docker-"@, 0);
    }
    if prefix != "libpod-"@ {
        lemma_begins_once(base, prefix, "libpod-"@, 0);
    }
    if prefix == "crio-"@ {
        lemma_begins_once(base, prefix, "cri-containerd-"@, 3);
    }
}

/// What is recognized as a container is the scope of one: the prefix of the
/// runtime that is reported, an ID in hexadecimal, and nothing else.
pub proof fn law_classify_is_sound(name: Seq<char>, runtime: Seq<char>, id: Seq<char>)
    requires
        classify_of(name) == Some((runtime, id)),
    ensures
        scope_prefix(runtime) is Some,
        is_container_id(id),
        name == scope_prefix(runtime)->0 + id + ".scope"@,
{
    lemma_prefix_literals();
    let base = before(name, ".scope"@)->0;
    assert(name =~= base + ".scope"@);
    let prefix = scope_prefix(runtime)->0;
    assert(id_after(base, prefix) == Some(id));
    assert(base =~= prefix + id);
}

/// The scope that podman gives the monitor of a container is no container, whatever
/// the container's ID.
pub proof fn law_monitor_scopes_are_no_containers(id: Seq<char>)
    ensures
        classify_of("libpod-conmon-"@ + id + ".scope"@) is None,
{
    lemma_prefix_literals();
    reveal_strlit("libpod-conmon-");
    reveal_strlit("libpod-");
    let base = "libpod-conmon-"@ + id;
    let name = base + ".scope"@;
    assert(name.skip(name.len() - ".scope"@.len()) =~= ".scope"@);
    assert(name.take(name.len() - ".scope"@.len()) =~= base);
    assert(base.take(7) =~= "libpod-"@);
    assert(begins(base, "libpod-"@));
    let rest = base.skip(7);
    assert(rest[1] == 'o');
    assert(!is_hex(rest[1]));
    lemma_begins_once(base, "libpod-"@, "docker-"@, 0);
    lemma_begins_once(base, "libpod-"@, "cri-containerd-"@, 0);
    lemma_begins_once(base, "libpod-"@, "crio-"@, 0);
}

/// A scope is recognized as a container by any of the four prefixes and twelve
/// hexadecimal digits or more behind it, in either case, each prefix standing for
/// its runtime.
pub proof fn law_a_scope_is_recognized(id: Seq<char>)
    requires
        id.len() >= 12,
        forall|i: int|
            0 <= i < id.len() ==> '0' <= #[trigger] id[i] <= '9' || 'a' <= id[i] <= 'f' || 'A'
                <= id[i] <= 'F',
    ensures
        classify_of("docker-"@ + id + ".scope"@) == Some(("docker"@, id)),
        classify_of("libpod-"@ + id + ".scope"@) == Some(("podman"@, id)),
        classify_of("cri-containerd-"@ + id + ".scope"@) == Some(("containerd"@, id)),
        classify_of("crio-"@ + id + ".scope"@) == Some(("cri-o"@, id)),
{
    lemma_prefix_literals();
    law_classify_reads_back("docker"@, id);
    law_classify_reads_back("podman"@, id);
    law_classify_reads_back("containerd"@, id);
    law_classify_reads_back("cri-o"@, id);
}

/// Nothing else is recognized: behind one of the four prefixes stand only
/// hexadecimal digits, at least twelve, and behind them the ending of a scope.
pub proof fn law_only_scopes_are_recognized(name: Seq<char>)
    ensures
        classify_of(name) matches Some((runtime, id)) ==> {
            &&& id.len() >= 12
            &&& forall|i: int|
                0 <= i < id.len() ==> '0' <= #[trigger] id[i] <= '9' || 'a' <= id[i] <= 'f' || 'A'
                    <= id[i] <= 'F'
            &&& {
                ||| runtime == "docker"@ && name == "docker-"@ + id + ".scope"@
                ||| runtime == "podman"@ && name == "libpod-"@ + id + ".scope"@
                ||| runtime == "containerd"@ && name == "cri-containerd-"@ + id + ".scope"@
                ||| runtime == "cri-o"@ && name == "crio-"@ + id + ".scope"@
            }
        },
{
    match classify_of(name) {
        Some((runtime, id)) => {
            law_classify_is_sound(name, runtime, id);
            lemma_prefix_literals();
            assert forall|i: int| 0 <= i < id.len() implies '0' <= #[trigger] id[i] <= '9' || 'a'
                <= id[i] <= 'f' || 'A' <= id[i] <= 'F' by {
                assert(is_hex(id[i]));
            }
        },
        None => {},
    }
}

/// A file of a directory is the directory, a slash and the name.
pub proof fn law_a_file_is_behind_a_slash(dir: Seq<char>, name: Seq<char>)
    ensures
        file_in_of(dir, name) == dir + seq!['/'] + name,
{
    reveal_strlit("/");
    assert("/"@ =~= seq!['/']);
}

/// A found container is shown with its own ID, runtime and path.
pub proof fn law_a_found_container_shows_its_strings(f: Found)
    ensures
        f@.id == f.id@,
        f@.runtime == f.runtime@,
        f@.path == f.path@,
{
}

/// The number in a file of its own is read by its value, whatever whitespace stands
/// around it, and nothing else is read as one: neither a word nor two numbers.
pub proof fn law_a_single_number(
    lead: Seq<char>,
    body: Seq<char>,
    trail: Seq<char>,
    n: nat,
    width: nat,
)
    requires
        forall|i: int| 0 <= i < lead.len() ==> is_white(#[trigger] lead[i]),
        forall|i: int| 0 <= i < trail.len() ==> is_white(#[trigger] trail[i]),
        body.len() > 0,
        !is_white(body[0]),
        !is_white(body.last()),
    ensures
        body == padded(n, width) ==> single_of(lead + body + trail) == (if n <= u64::MAX {
            Some(n as u64)
        } else {
            None
        }),
        single_of(lead + body + trail) matches Some(v) ==> exists|w: nat|
            body == #[trigger] padded(v as nat, w) || body == seq!['+'] + padded(v as nat, w),
        body == "max"@ ==> single_of(lead + body + trail) is None && limit_of(lead + body + trail)
            is None,
        limit_of(lead + body + trail) == single_of(lead + body + trail),
{
    lemma_trim(lead, body, trail);
    law_numbers_are_read_by_value(n, width);
    law_only_digits_are_numbers(body);
    law_max_is_no_number(lead + body + trail);
}

/// A counter is whatever stands behind its key and a space on the first line that
/// has them, whatever stands on the lines around it; without such a line there is
/// none.
pub proof fn law_a_counter_is_on_the_first_line_with_its_key(
    rows: Seq<Row>,
    i: int,
    key: Seq<char>,
    n: u64,
)
    requires
        are_lines(rows),
    ensures
        0 <= i < rows.len() && rows[i].label == key + seq![' '] && rows[i].value == decimal(n as nat)
            && (forall|j: int|
            0 <= j < i ==> !begins((#[trigger] rows[j]).line(), key + seq![' '])) ==> keyed_of(
            table(rows),
            key,
        ) == Some(n),
        (forall|j: int|
            0 <= j < rows.len() ==> !begins((#[trigger] rows[j]).line(), key + seq![' ']))
            ==> keyed_of(table(rows), key) is None,
{
    reveal_strlit(" ");
    assert(key + " "@ =~= key + seq![' ']);
    lemma_table_lines(rows);
    if 0 <= i < rows.len() && rows[i].label == key + seq![' '] && rows[i].value == decimal(n as nat)
        && (forall|j: int| 0 <= j < i ==> !begins((#[trigger] rows[j]).line(), key + seq![' '])) {
        lemma_row_found(rows, i);
        lemma_decimal_solid(n as nat);
        lemma_trim_solid(decimal(n as nat));
        law_decimal_reads_back(n);
    }
    if forall|j: int| 0 <= j < rows.len() ==> !begins((#[trigger] rows[j]).line(), key + seq![' ']) {
        lemma_row_missing(rows, key + seq![' ']);
    }
}

/// A file of counters as the kernel writes it: on each line a key, a space and a
/// number.
pub open spec fn counters_text(counters: Seq<(Seq<char>, u64)>) -> Seq<char> {
    table(counter_rows(counters))
}

/// The lines of a file of counters.
pub open spec fn counter_rows(counters: Seq<(Seq<char>, u64)>) -> Seq<Row> {
    Seq::new(
        counters.len(),
        |i: int|
            Row { label: counters[i].0 + seq![' '], value: decimal(counters[i].1 as nat) },
    )
}

/// Whether the keys are words, and no key is there twice.
pub open spec fn are_counters(counters: Seq<(Seq<char>, u64)>) -> bool {
    &&& forall|i: int| 0 <= i < counters.len() ==> (#[trigger] counters[i]).0.len() > 0
    &&& forall|i: int, k: int|
        0 <= i < counters.len() && 0 <= k < counters[i].0.len() ==> !is_white(
            #[trigger] counters[i].0[k],
        )
    &&& forall|i: int, j: int|
        0 <= i < j < counters.len() ==> (#[trigger] counters[i]).0 != (#[trigger] counters[j]).0
}

/// Every counter of a file is read back as the number that was written, under its
/// own key, whatever the order of the lines; a key that was not written has none.
pub proof fn law_counters_read_back(counters: Seq<(Seq<char>, u64)>, key: Seq<char>)
    requires
        are_counters(counters),
        key.len() > 0,
        !key.contains(' '),
    ensures
        forall|i: int|
            0 <= i < counters.len() && (#[trigger] counters[i]).0 == key ==> keyed_of(
                counters_text(counters),
                key,
            ) == Some(counters[i].1),
        (forall|i: int| 0 <= i < counters.len() ==> (#[trigger] counters[i]).0 != key) ==> keyed_of(
            counters_text(counters),
            key,
        ) is None,
{
    let rows = counter_rows(counters);
    assert forall|i: int| 0 <= i < rows.len() implies (#[trigger] rows[i]).is_line() && !counters[i].0.contains(
        ' ',
    ) by {
        let k = counters[i].0;
        let d = decimal(counters[i].1 as nat);
        lemma_decimal_solid(counters[i].1 as nat);
        let line = rows[i].line();
        assert(line =~= k + seq![' '] + d);
        assert(!is_white(counters[i].0[0]));
        assert(line[0] == k[0]);
        assert(line.last() == d[d.len() - 1]);
        assert(!line.contains('\n')) by {
            if line.contains('\n') {
                let x = choose|x: int| 0 <= x < line.len() && line[x] == '\n';
                if x < k.len() {
                    assert(!is_white(counters[i].0[x]));
                } else if x > k.len() {
                    assert(d[x - k.len() - 1] == '\n');
                }
            }
        }
        assert(!k.contains(' ')) by {
            if k.contains(' ') {
                let x = choose|x: int| 0 <= x < k.len() && k[x] == ' ';
                assert(!is_white(counters[i].0[x]));
            }
        }
    }
    let label = key + seq![' '];
    assert forall|j: int| 0 <= j < rows.len() && begins((#[trigger] rows[j]).line(), label) implies counters[j].0
        == key by {
        assert(rows[j].is_line());
        assert(rows[j].line() =~= counters[j].0 + seq![' '] + decimal(counters[j].1 as nat));
        lemma_keys_differ(counters[j].0, ' ', decimal(counters[j].1 as nat), key);
    }
    assert forall|i: int| 0 <= i < counters.len() && (#[trigger] counters[i]).0 == key implies keyed_of(
        counters_text(counters),
        key,
    ) == Some(counters[i].1) by {
        assert forall|j: int| 0 <= j < i implies !begins((#[trigger] rows[j]).line(), label) by {
            if begins(rows[j].line(), label) {
                assert(counters[j].0 == counters[i].0);
            }
        }
        law_a_counter_is_on_the_first_line_with_its_key(rows, i, key, counters[i].1);
    }
    if forall|i: int| 0 <= i < counters.len() ==> (#[trigger] counters[i]).0 != key {
        assert forall|j: int| 0 <= j < rows.len() implies !begins(
            (#[trigger] rows[j]).line(),
            label,
        ) by {
            if begins(rows[j].line(), label) {
                assert(counters[j].0 == key);
            }
        }
        law_a_counter_is_on_the_first_line_with_its_key(rows, 0, key, 0);
    }
}

/// No counter is made up: what is read under a key is the number that stands, alone
/// but for whitespace, behind the key and a space on the first line that has them.
pub proof fn law_no_counter_is_made_up(text: Seq<char>, key: Seq<char>, value: Seq<char>)
    ensures
        first_after(lines_of(text), key + seq![' ']) == Some(value) ==> keyed_of(text, key) == u64_of(
            trim_of(value),
        ),
        first_after(lines_of(text), key + seq![' ']) is None ==> keyed_of(text, key) is None,
{
    reveal_strlit(" ");
    assert(key + " "@ =~= key + seq![' ']);
}

/// A quota and a period are the first two words, where both are numbers; otherwise
/// there is neither.
pub proof fn law_a_quota_is_two_numbers(text: Seq<char>, quota: u64, period: u64)
    ensures
        cpu_max_of(text) == Some((quota, period)) <==> words_of(text).len() >= 2 && u64_of(
            trim_of(words_of(text)[0]),
        ) == Some(quota) && u64_of(words_of(text)[1]) == Some(period),
{
    if words_of(text).len() >= 2 {
        law_max_is_no_number(words_of(text)[0]);
    }
}

} // verus!
