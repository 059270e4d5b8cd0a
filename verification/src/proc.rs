//! The kernel's virtual files under `/proc`: what reading one gives, and parsers
//! for the formats found there.
//!
//! This module knows how these files are shaped, not what any tool says about
//! them. Every parser takes text rather than a path, so it reads a file the same
//! way wherever the text came from.
//!
//! [`read`], [`read_optional`], [`read_dir`] and [`dir_mtime`] are the only ways in
//! for what the file system gave, and each asks the guard first: what the guard
//! refuses yields nothing, whatever was handed in.
use vstd::prelude::*;

use crate::cgroup::{file_in, file_in_of, law_a_file_is_behind_a_slash};
use crate::discovery::texts;
use crate::fault::{flat_message, Fault, FaultView};
use crate::guard::{
    check, check_dir, components, law_arguments_and_environment_are_unreadable, may_list, may_read,
};
use crate::number::{
    decimal, is_digit, is_float, law_decimal_reads_back, lemma_decimal, lemma_decimal_solid,
    parse_u64, u32_of, u64_of, FieldValue, FloatText,
};
use crate::table::{
    are_lines, lemma_keys_differ, lemma_row_found, lemma_row_missing, lemma_table_lines,
    lemma_table_trimmed, table, Row,
};
use crate::text::{
    after, begins, char_vec, find_after, find_with, first_after, first_with, is_white,
    law_newlines_end_lines, law_the_first_part_with_a_prefix, law_trimming_strips_the_ends,
    lemma_first_with_concat, lemma_first_word, lemma_line, lemma_lines_concat, lemma_words_concat,
    lines, lines_of, strip_prefix, trim, trim_of, views, words, words_of,
};

verus! {

broadcast use vstd::string::group_string_axioms;

/// Why a file could not be read.
pub struct ReadFailure {
    /// Whether the file does not exist.
    pub not_found: bool,
    /// The operating system's account of the failure.
    pub detail: String,
}

/// A file that could not be read.
fn unreadable(path: &str, failure: ReadFailure) -> (r: Fault)
    ensures
        r@ == (FaultView::Unreadable { path: path@, detail: failure.detail@ }),
{
    Fault::Unreadable { path: path.to_owned(), detail: failure.detail }
}

/// What reading a file gave: its characters, or the operating system's account
/// of the failure.
pub open spec fn outcome_view(outcome: Result<String, ReadFailure>) -> Result<
    Seq<char>,
    Seq<char>,
> {
    match outcome {
        Ok(content) => Ok(content@),
        Err(failure) => Err(failure.detail@),
    }
}

/// A result with its value and its fault taken by their views.
pub open spec fn result_view<T: View>(r: Result<T, Fault>) -> Result<T::V, FaultView> {
    match r {
        Ok(value) => Ok(value@),
        Err(fault) => Err(fault@),
    }
}

/// What a required file holds, trimmed.
pub open spec fn read_of(path: Seq<char>, outcome: Result<Seq<char>, Seq<char>>) -> Result<
    Seq<char>,
    FaultView,
> {
    match outcome {
        Ok(content) => Ok(trim_of(content)),
        Err(detail) => Err(FaultView::Unreadable { path, detail }),
    }
}

/// What a read that the guard refuses is answered with.
pub open spec fn refusal_of(path: Seq<char>) -> FaultView {
    FaultView::Unreadable { path, detail: "not a file this server reads"@ }
}

/// What a required file holds, trimmed, where the guard lets it be read.
pub open spec fn guarded_read_of(path: Seq<char>, outcome: Result<Seq<char>, Seq<char>>) -> Result<
    Seq<char>,
    FaultView,
> {
    if may_read(path) {
        read_of(path, outcome)
    } else {
        Err(refusal_of(path))
    }
}

/// What a read that the guard refuses is answered with.
fn refusal(path: &str) -> (r: Fault)
    ensures
        r@ == refusal_of(path@),
{
    Fault::Unreadable { path: path.to_owned(), detail: "not a file this server reads".to_owned() }
}

/// What a required file holds, trimmed, given what reading `path` gave.
///
/// The guard is asked first: a path that it refuses is answered with a fault and
/// none of the content.
pub fn read(path: &str, outcome: Result<String, ReadFailure>) -> (r: Result<String, Fault>)
    ensures
        result_view(r) == guarded_read_of(path@, outcome_view(outcome)),
{
    if !check(path) {
        return Err(refusal(path));
    }
    match outcome {
        Ok(content) => Ok(trim(content.as_str()).to_owned()),
        Err(failure) => Err(unreadable(path, failure)),
    }
}

/// What a file that may legitimately not exist holds, given what reading `path`
/// gave, and the fault to log where there is one.
///
/// The guard is asked first: a path that it refuses yields no text, and a fault to
/// log. Beyond that, no text means that the kernel does not provide the file: it
/// is too old, or a feature is compiled out. Only a failure other than absence is
/// worth logging.
pub fn read_optional(path: &str, outcome: Result<String, ReadFailure>) -> (r: (
    Option<String>,
    Option<Fault>,
))
    ensures
        !may_read(path@) ==> r.0 is None && (r.1 matches Some(fault) && fault@ == refusal_of(
            path@,
        )),
        may_read(path@) ==> match outcome {
            Ok(content) => r.0 == Some(content) && r.1 is None,
            Err(failure) => {
                &&& r.0 is None
                &&& r.1 is None <==> failure.not_found
                &&& r.1 matches Some(fault) ==> fault@ == (FaultView::Unreadable {
                    path: path@,
                    detail: failure.detail@,
                })
            },
        },
{
    if !check(path) {
        return (None, Some(refusal(path)));
    }
    match outcome {
        Ok(content) => (Some(content), None),
        Err(failure) => if failure.not_found {
            (None, None)
        } else {
            (None, Some(unreadable(path, failure)))
        },
    }
}

/// The paths of the subdirectories of `dir` with the names `names`.
pub open spec fn children_of(dir: Seq<char>, names: Seq<Seq<char>>) -> Seq<Seq<char>> {
    Seq::new(names.len(), |i: int| file_in_of(dir, names[i]))
}

/// The paths of the subdirectories of `dir`, given the names that listing it gave,
/// or nothing where it could not be listed.
///
/// The guard is asked first: a directory that it refuses counts as one that could
/// not be listed.
pub fn read_dir(dir: &str, names: Option<Vec<String>>) -> (r: Option<Vec<String>>)
    ensures
        match (r, names) {
            (Some(paths), Some(given)) => may_list(dir@) && texts(paths@) == children_of(
                dir@,
                texts(given@),
            ),
            (Some(_), None) => false,
            (None, Some(_)) => !may_list(dir@),
            (None, None) => true,
        },
{
    if !check_dir(dir) {
        return None;
    }
    match names {
        None => None,
        Some(given) => {
            let mut paths: Vec<String> = Vec::new();
            let mut i: usize = 0;
            while i < given.len()
                invariant
                    i <= given@.len(),
                    paths@.len() == i,
                    forall|j: int|
                        0 <= j < i ==> #[trigger] paths@[j]@ == file_in_of(dir@, given@[j]@),
                decreases given@.len() - i,
            {
                paths.push(file_in(dir, given[i].as_str()));
                i = i + 1;
            }
            assert(texts(paths@) =~= children_of(dir@, texts(given@)));
            Some(paths)
        },
    }
}

/// When a directory was last modified, in seconds after the Unix epoch, given what
/// its metadata says, where that could be read.
///
/// Metadata reveals strictly less than a listing, so the same rule guards it: of a
/// directory that may not be listed, nothing is said.
pub fn dir_mtime(dir: &str, modified: Option<i64>) -> (r: Option<i64>)
    ensures
        r == (if may_list(dir@) {
            modified
        } else {
            None
        }),
{
    if check_dir(dir) {
        modified
    } else {
        None
    }
}

/// A file whose content is not what the kernel promises.
///
/// These files are kernel-generated and their layouts are stable, so reaching
/// here means that something is genuinely wrong rather than merely unexpected.
pub fn parse_error(path: &str, what: &str) -> (r: Fault)
    ensures
        r@ == (FaultView::Malformed { path: path@, what: what@ }),
{
    Fault::Malformed { path: path.to_owned(), what: what.to_owned() }
}

/// `value`, or a malformed `path` where there is none.
pub open spec fn required<V>(value: Option<V>, path: Seq<char>, what: Seq<char>) -> Result<
    V,
    FaultView,
> {
    match value {
        Some(v) => Ok(v),
        None => Err(FaultView::Malformed { path, what }),
    }
}

/// The value of a field that may be missing.
pub open spec fn field_of<T: FieldValue>(value: Option<Seq<char>>) -> Option<T::V> {
    match value {
        Some(s) => T::reading(s),
        None => None,
    }
}

/// The characters of a string that may be missing.
pub open spec fn text_view(value: Option<&str>) -> Option<Seq<char>> {
    match value {
        Some(text) => Some(text@),
        None => None,
    }
}

/// Parse one whitespace-delimited field, or fail with [`parse_error`].
pub fn field<T: FieldValue>(value: Option<&str>, path: &str, what: &str) -> (r: Result<T, Fault>)
    ensures
        result_view(r) == required(field_of::<T>(text_view(value)), path@, what@),
{
    match value {
        Some(text) => match T::from_text(text) {
            Some(t) => Ok(t),
            None => Err(parse_error(path, what)),
        },
        None => Err(parse_error(path, what)),
    }
}

/// Whether `line` is one of the per-CPU lines of `/proc/stat`, such as `cpu0`.
/// The leading `cpu` line, which sums them, is not.
pub open spec fn is_cpu_line(line: Seq<char>) -> bool {
    match after(line, "cpu"@) {
        Some(rest) => rest.len() > 0 && is_digit(rest[0]),
        None => false,
    }
}

/// How many of `parts` are per-CPU lines.
pub open spec fn cpu_lines(parts: Seq<Seq<char>>) -> nat
    decreases parts.len(),
{
    if parts.len() == 0 {
        0
    } else {
        cpu_lines(parts.drop_last()) + if is_cpu_line(parts.last()) {
            1nat
        } else {
            0nat
        }
    }
}

/// Count the per-CPU lines in `/proc/stat`.
pub fn count_cpus(stat: &str) -> (r: u32)
    ensures
        r == cpu_lines(lines_of(stat@)) as u32,
{
    let parts = lines(stat);
    let ghost all = views(parts@);
    let mut count: usize = 0;
    let mut i: usize = 0;
    assert(all.take(0) =~= Seq::empty());
    while i < parts.len()
        invariant
            i <= parts@.len(),
            all == views(parts@),
            count == cpu_lines(all.take(i as int)),
            count <= i,
        decreases parts@.len() - i,
    {
        let line = parts[i];
        proof {
            assert(all.take(i + 1).drop_last() =~= all.take(i as int));
            assert(all.take(i + 1).last() == line@);
        }
        if let Some(rest) = strip_prefix(line, "cpu") {
            let v = char_vec(rest);
            if v.len() > 0 && '0' <= v[0] && v[0] <= '9' {
                count = count + 1;
            }
        }
        i = i + 1;
    }
    assert(all.take(all.len() as int) =~= all);
    #[verifier::truncate]
    (count as u32)
}

/// The first word of `s`, if there is one.
pub open spec fn first_word(s: Seq<char>) -> Option<Seq<char>> {
    if words_of(s).len() > 0 {
        Some(words_of(s)[0])
    } else {
        None
    }
}

/// The unsigned integer that the first word of `s` is.
pub open spec fn leading_u64(s: Seq<char>) -> Option<u64> {
    match first_word(s) {
        Some(word) => u64_of(word),
        None => None,
    }
}

/// Parse the first word of `text` as an unsigned integer.
fn leading(text: &str) -> (r: Option<u64>)
    ensures
        r == leading_u64(text@),
{
    let w = words(text);
    assert(views(w@).len() == w@.len());
    if w.len() > 0 {
        assert(views(w@)[0] == w@[0]@);
        parse_u64(w[0])
    } else {
        None
    }
}

/// Boot time in `/proc/stat`: the number on its first `btime` line.
pub open spec fn stat_btime_of(stat: Seq<char>) -> Option<u64> {
    match first_after(lines_of(stat), "btime "@) {
        Some(value) => leading_u64(value),
        None => None,
    }
}

/// Boot time from `/proc/stat`, as seconds since the Unix epoch.
pub fn stat_btime(stat: &str) -> (r: Option<u64>)
    ensures
        r == stat_btime_of(stat@),
{
    match find_after(&lines(stat), "btime ") {
        Some(value) => leading(value),
        None => None,
    }
}

/// The field `key` of `/proc/meminfo` in bytes, where it fits 64 bits. The file
/// labels its values `kB` but counts in units of 1024 bytes.
pub open spec fn meminfo_bytes_of(meminfo: Seq<char>, key: Seq<char>) -> Option<u64> {
    match first_after(lines_of(meminfo), key + ":"@) {
        Some(value) => match leading_u64(value) {
            Some(kib) => if kib * 1024 <= u64::MAX {
                Some((kib * 1024) as u64)
            } else {
                None
            },
            None => None,
        },
        None => None,
    }
}

/// Pull one `/proc/meminfo` field, converting to bytes.
pub fn meminfo_bytes(meminfo: &str, key: &str) -> (r: Option<u64>)
    ensures
        r == meminfo_bytes_of(meminfo@, key@),
{
    let mut label = key.to_owned();
    label.append(":");
    match find_after(&lines(meminfo), label.as_str()) {
        Some(value) => match leading(value) {
            Some(kib) => kib.checked_mul(1024),
            None => None,
        },
        None => None,
    }
}

/// What follows `key` in the first word that begins with it, on the first line
/// of a pressure-stall file that begins with `line`.
pub open spec fn psi_token_of(text: Seq<char>, line: Seq<char>, key: Seq<char>) -> Option<
    Seq<char>,
> {
    match first_with(lines_of(text), line) {
        Some(l) => first_after(words_of(l), key),
        None => None,
    }
}

/// One pressure average, as text that denotes a floating-point value.
pub open spec fn psi_avg_of(text: Seq<char>, line: Seq<char>, key: Seq<char>) -> Option<
    Seq<char>,
> {
    match psi_token_of(text, line, key) {
        Some(token) => if is_float(token) {
            Some(token)
        } else {
            None
        },
        None => None,
    }
}

/// The cumulative stall of one of the two lines.
pub open spec fn psi_total_of(text: Seq<char>, line: Seq<char>) -> Option<u64> {
    match psi_token_of(text, line, "total="@) {
        Some(token) => u64_of(token),
        None => None,
    }
}

/// A pressure-stall file is two lines, `some` and `full`, each of the form
/// `some avg10=0.00 avg60=0.00 avg300=0.00 total=1714525`.
///
/// `line` selects which of the two ("some " or "full "), `key` which token
/// ("avg10=", "total=").
pub fn psi_token<'a>(text: &'a str, line: &str, key: &str) -> (r: Option<&'a str>)
    ensures
        match r {
            Some(token) => psi_token_of(text@, line@, key@) == Some(token@),
            None => psi_token_of(text@, line@, key@) is None,
        },
{
    match find_with(&lines(text), line) {
        Some(l) => find_after(&words(l), key),
        None => None,
    }
}

/// One pressure average, as a percentage of wall-clock time.
pub fn psi_avg(text: &str, line: &str, key: &str) -> (r: Option<FloatText>)
    ensures
        match r {
            Some(avg) => psi_avg_of(text@, line@, key@) == Some(avg@),
            None => psi_avg_of(text@, line@, key@) is None,
        },
{
    match psi_token(text, line, key) {
        Some(token) => FloatText::from_text(token),
        None => None,
    }
}

/// Cumulative stall microseconds for one of the two lines.
pub fn psi_total(text: &str, line: &str) -> (r: Option<u64>)
    ensures
        r == psi_total_of(text@, line@),
{
    match psi_token(text, line, "total=") {
        Some(token) => parse_u64(token),
        None => None,
    }
}

/// A read that the guard refuses is answered with one and the same fault, which
/// the model cannot tell from any other failure to read, and none of the content.
pub proof fn law_a_refused_read_gives_nothing(
    path: Seq<char>,
    a: Result<Seq<char>, Seq<char>>,
    b: Result<Seq<char>, Seq<char>>,
)
    requires
        !may_read(path),
    ensures
        guarded_read_of(path, a) == Err::<Seq<char>, _>(refusal_of(path)),
        guarded_read_of(path, a) == guarded_read_of(path, b),
        refusal_of(path).message() == flat_message(),
{
}

/// The arguments and the environment of a process never come back from a read,
/// whatever the file holds.
pub proof fn law_arguments_and_environment_are_never_read(
    path: Seq<char>,
    outcome: Result<Seq<char>, Seq<char>>,
)
    requires
        components(path).last() == "cmdline"@ || components(path).last() == "environ"@,
    ensures
        guarded_read_of(path, outcome) == Err::<Seq<char>, _>(refusal_of(path)),
{
    law_arguments_and_environment_are_unreadable(path);
}

/// Memory is reported in bytes: whole multiples of the 1024 that the file counts
/// in.
pub proof fn law_memory_is_in_bytes(meminfo: Seq<char>, key: Seq<char>)
    ensures
        meminfo_bytes_of(meminfo, key) matches Some(bytes) ==> bytes % 1024 == 0,
{
}

/// A line that begins a text and has no newline in it is found by its label,
/// wherever lines without the label precede it.
proof fn lemma_labelled_line(
    head: Seq<char>,
    label: Seq<char>,
    value: Seq<char>,
    tail: Seq<char>,
)
    requires
        head.len() > 0 ==> head.last() == '\n',
        first_with(lines_of(head), label) is None,
        !label.contains('\n'),
        !value.contains('\n'),
        value.len() > 0,
        value.last() != '\r',
    ensures
        first_with(lines_of(head + (label + value + seq!['\n'] + tail)), label) == Some(
            label + value,
        ),
        first_after(lines_of(head + (label + value + seq!['\n'] + tail)), label) == Some(value),
{
    let line = label + value;
    assert(!line.contains('\n')) by {
        if line.contains('\n') {
            let i = choose|i: int| 0 <= i < line.len() && line[i] == '\n';
            if i < label.len() {
                assert(label[i] == '\n');
            } else {
                assert(value[i - label.len()] == '\n');
            }
        }
    }
    assert(line.last() == value.last());
    let own = line + seq!['\n'] + tail;
    lemma_line(line, tail);
    lemma_lines_concat(head, own);
    lemma_first_with_concat(lines_of(head), lines_of(own), label);
    assert(lines_of(own)[0] == line);
    assert(line.take(label.len() as int) =~= label);
    assert(begins(line, label));
    assert(line.skip(label.len() as int) =~= value);
}

/// A decimal number behind spaces is the first word, whatever whitespace follows.
proof fn lemma_leading_decimal(pad: nat, n: u64, rest: Seq<char>)
    requires
        rest.len() > 0 ==> is_white(rest[0]),
    ensures
        leading_u64(Seq::new(pad, |i: int| ' ') + decimal(n as nat) + rest) == Some(n),
{
    let lead = Seq::new(pad, |i: int| ' ');
    let word = decimal(n as nat);
    lemma_decimal(n as nat);
    assert forall|i: int| 0 <= i < word.len() implies !is_white(#[trigger] word[i]) by {
        assert(is_digit(word[i]));
    }
    lemma_first_word(lead, word, rest);
    let f = words_of(lead + word + rest);
    assert(f[0] == word);
    law_decimal_reads_back(n);
}

/// A field of `/proc/meminfo` is read back as 1024 times what was written, wherever
/// its line stands, provided no earlier line has the same key; it is absent where
/// that does not fit 64 bits.
pub proof fn law_meminfo_reads_back(
    head: Seq<char>,
    key: Seq<char>,
    pad: nat,
    kib: u64,
    tail: Seq<char>,
)
    requires
        head.len() > 0 ==> head.last() == '\n',
        first_with(lines_of(head), key + ":"@) is None,
        !key.contains('\n'),
    ensures
        meminfo_bytes_of(
            head + (key + ":"@ + (Seq::new(pad, |i: int| ' ') + decimal(kib as nat) + " kB"@)
                + seq!['\n'] + tail),
            key,
        ) == (if kib * 1024 <= u64::MAX {
            Some((kib * 1024) as u64)
        } else {
            None
        }),
{
    reveal_strlit(":");
    reveal_strlit(" kB");
    let label = key + ":"@;
    let lead = Seq::new(pad, |i: int| ' ');
    let value = lead + decimal(kib as nat) + " kB"@;
    lemma_decimal(kib as nat);
    assert(!label.contains('\n')) by {
        if label.contains('\n') {
            let i = choose|i: int| 0 <= i < label.len() && label[i] == '\n';
            if i < key.len() {
                assert(key[i] == '\n');
            }
        }
    }
    assert(!value.contains('\n')) by {
        if value.contains('\n') {
            let i = choose|i: int| 0 <= i < value.len() && value[i] == '\n';
            let k = i - pad;
            if i >= pad && k < decimal(kib as nat).len() {
                assert(is_digit(decimal(kib as nat)[k]));
            }
        }
    }
    assert(value.last() == " kB"@[2]);
    lemma_labelled_line(head, label, value, tail);
    lemma_leading_decimal(pad, kib, " kB"@);
}

/// The boot time is read back as what was written, wherever its line stands,
/// provided no earlier line has the same key.
pub proof fn law_btime_reads_back(head: Seq<char>, n: u64, tail: Seq<char>)
    requires
        head.len() > 0 ==> head.last() == '\n',
        first_with(lines_of(head), "btime "@) is None,
    ensures
        stat_btime_of(head + ("btime "@ + decimal(n as nat) + seq!['\n'] + tail)) == Some(n),
{
    reveal_strlit("btime ");
    let value = decimal(n as nat);
    lemma_decimal(n as nat);
    assert(!value.contains('\n')) by {
        if value.contains('\n') {
            let i = choose|i: int| 0 <= i < value.len() && value[i] == '\n';
            assert(is_digit(value[i]));
        }
    }
    assert(is_digit(value[value.len() - 1]));
    lemma_labelled_line(head, "btime "@, value, tail);
    let lead = Seq::new(0, |i: int| ' ');
    lemma_leading_decimal(0, n, Seq::empty());
    assert(lead + value + Seq::empty() =~= value);
}

/// The stall total of a line is read back as what was written, wherever the line
/// stands, provided no earlier line has the same tag and no earlier word of the
/// line is a total.
pub proof fn law_psi_total_reads_back(
    head: Seq<char>,
    tag: Seq<char>,
    averages: Seq<char>,
    n: u64,
    tail: Seq<char>,
)
    requires
        head.len() > 0 ==> head.last() == '\n',
        first_with(lines_of(head), tag) is None,
        !tag.contains('\n'),
        !averages.contains('\n'),
        first_with(words_of(tag + averages), "total="@) is None,
    ensures
        psi_total_of(
            head + (tag + (averages + " total="@ + decimal(n as nat)) + seq!['\n'] + tail),
            tag,
        ) == Some(n),
{
    reveal_strlit(" total=");
    reveal_strlit("total=");
    let digits = decimal(n as nat);
    let value = averages + " total="@ + digits;
    lemma_decimal(n as nat);
    assert(!value.contains('\n')) by {
        if value.contains('\n') {
            let i = choose|i: int| 0 <= i < value.len() && value[i] == '\n';
            let k = i - averages.len() - " total="@.len();
            if i < averages.len() {
                assert(averages[i] == '\n');
            } else if k >= 0 {
                assert(is_digit(digits[k]));
            }
        }
    }
    assert(value.last() == digits[digits.len() - 1]);
    assert(is_digit(digits[digits.len() - 1]));
    lemma_labelled_line(head, tag, value, tail);
    let line = tag + value;
    let a = tag + averages;
    let word = "total="@ + digits;
    let b = seq![' '] + word + Seq::<char>::empty();
    assert(line =~= a + b);
    lemma_words_concat(a, b);
    assert forall|i: int| 0 <= i < word.len() implies !is_white(#[trigger] word[i]) by {
        if i >= 6 {
            assert(is_digit(digits[i - 6]));
        }
    }
    lemma_first_word(seq![' '], word, Seq::empty());
    lemma_first_with_concat(words_of(a), words_of(b), "total="@);
    assert(words_of(b)[0] == word);
    assert(word.take(6) =~= "total="@);
    assert(begins(word, "total="@));
    assert(word.skip(6) =~= digits);
    law_decimal_reads_back(n);
}

/// The line that sums all CPUs is not counted as one, and a line that names a CPU
/// by number is.
pub proof fn law_cpu_lines(rest: Seq<char>)
    ensures
        is_cpu_line("cpu"@ + rest) <==> rest.len() > 0 && is_digit(rest[0]),
        !is_cpu_line("cpu "@ + rest),
{
    reveal_strlit("cpu");
    reveal_strlit("cpu ");
    let s = "cpu"@ + rest;
    assert(s.take(3) =~= "cpu"@);
    assert(s.skip(3) =~= rest);
    let t = "cpu "@ + rest;
    assert(t.take(3) =~= "cpu"@);
    assert(t.skip(3)[0] == ' ');
}

/// CPUs are counted line by line: those of a text and those of what follows it add
/// up.
pub proof fn law_cpu_count_adds_up(a: Seq<char>, b: Seq<char>)
    requires
        a.len() > 0 ==> a.last() == '\n',
    ensures
        cpu_lines(lines_of(a + b)) == cpu_lines(lines_of(a)) + cpu_lines(lines_of(b)),
{
    lemma_lines_concat(a, b);
    lemma_cpu_lines_concat(lines_of(a), lines_of(b));
}

/// The per-CPU lines of two lists put together add up.
pub proof fn lemma_cpu_lines_concat(a: Seq<Seq<char>>, b: Seq<Seq<char>>)
    ensures
        cpu_lines(a + b) == cpu_lines(a) + cpu_lines(b),
    decreases b.len(),
{
    if b.len() == 0 {
        assert(a + b =~= a);
    } else {
        assert((a + b).drop_last() =~= a + b.drop_last());
        assert((a + b).last() == b.last());
        lemma_cpu_lines_concat(a, b.drop_last());
    }
}

/// A file that may be read is answered with all that it holds but the whitespace at
/// its ends, and a failure to read it with that failure.
pub proof fn law_a_file_is_read_whole(
    path: Seq<char>,
    lead: Seq<char>,
    s: Seq<char>,
    trail: Seq<char>,
    detail: Seq<char>,
)
    requires
        may_read(path),
        forall|i: int| 0 <= i < lead.len() ==> is_white(#[trigger] lead[i]),
        forall|i: int| 0 <= i < trail.len() ==> is_white(#[trigger] trail[i]),
        s.len() > 0,
        !is_white(s[0]),
        !is_white(s.last()),
    ensures
        guarded_read_of(path, Ok(lead + s + trail)) == Ok::<_, FaultView>(s),
        guarded_read_of(path, Ok(lead)) == Ok::<_, FaultView>(Seq::<char>::empty()),
        guarded_read_of(path, Err(detail)) == Err::<Seq<char>, _>(
            FaultView::Unreadable { path, detail },
        ),
        read_of(path, Ok(lead + s + trail)) == Ok::<_, FaultView>(s),
        read_of(path, Err(detail)) == Err::<Seq<char>, _>(FaultView::Unreadable { path, detail }),
{
    law_trimming_strips_the_ends(lead, s, trail);
}

/// The fault of a refused read names the path, and says that the server does not
/// read it.
pub proof fn law_a_refusal_names_the_path(path: Seq<char>)
    ensures
        refusal_of(path) == (FaultView::Unreadable {
            path,
            detail: "not a file this server reads"@,
        }),
{
}

/// What reading gave, a result, and a string that may be missing are each shown as
/// they are: nothing is lost or exchanged.
pub proof fn law_results_show_what_they_hold(
    content: String,
    failure: ReadFailure,
    fault: Fault,
    text: &str,
)
    ensures
        outcome_view(Ok(content)) == Ok::<_, Seq<char>>(content@),
        outcome_view(Err(failure)) == Err::<Seq<char>, _>(failure.detail@),
        result_view(Ok::<String, Fault>(content)) == Ok::<_, FaultView>(content@),
        result_view(Err::<String, Fault>(fault)) == Err::<Seq<char>, _>(fault@),
        text_view(Some(text)) == Some(text@),
        text_view(None) is None,
{
}

/// A field is the value that its text denotes, and where there is no text, or it
/// denotes none, the fault names the file and what was looked for.
pub proof fn law_a_field_is_read_or_named(text: Seq<char>, path: Seq<char>, what: Seq<char>)
    ensures
        field_of::<u32>(Some(text)) == u32_of(text),
        field_of::<u64>(Some(text)) == u64_of(text),
        is_float(text) ==> field_of::<FloatText>(Some(text)) == Some(text),
        !is_float(text) ==> field_of::<FloatText>(Some(text)) is None,
        field_of::<u32>(None) is None,
        field_of::<u64>(None) is None,
        field_of::<FloatText>(None) is None,
        required(Some(text), path, what) == Ok::<_, FaultView>(text),
        required(None::<Seq<char>>, path, what) == Err::<Seq<char>, _>(
            FaultView::Malformed { path, what },
        ),
{
}

/// CPUs are counted line by line: a line counts for one where `cpu` begins it and a
/// digit follows, and for nothing otherwise.
pub proof fn law_each_cpu_line_counts_for_one(line: Seq<char>, rest: Seq<char>)
    requires
        !line.contains('\n'),
        line.len() == 0 || line.last() != '\r',
    ensures
        cpu_lines(lines_of(line + seq!['\n'] + rest)) == cpu_lines(lines_of(rest)) + (if line.len()
            > 3 && line[0] == 'c' && line[1] == 'p' && line[2] == 'u' && '0' <= line[3] <= '9' {
            1nat
        } else {
            0nat
        }),
        cpu_lines(lines_of(line)) == (if line.len() > 3 && line[0] == 'c' && line[1] == 'p' && line[2]
            == 'u' && '0' <= line[3] <= '9' {
            1nat
        } else {
            0nat
        }),
        cpu_lines(lines_of(Seq::<char>::empty())) == 0,
{
    reveal_strlit("cpu");
    law_newlines_end_lines(line, rest);
    let one = seq![line];
    lemma_cpu_lines_concat(one, lines_of(rest));
    assert(one.drop_last() =~= Seq::<Seq<char>>::empty());
    assert(one.last() == line);
    assert(cpu_lines(one.drop_last()) == 0);
    if line.len() > 3 && line[0] == 'c' && line[1] == 'p' && line[2] == 'u' {
        assert(line.take(3) =~= "cpu"@);
        assert(line.skip(3)[0] == line[3]);
    }
    if begins(line, "cpu"@) {
        assert(line.take(3)[0] == 'c' && line.take(3)[1] == 'p' && line.take(3)[2] == 'u');
        if line.len() > 3 {
            assert(line.skip(3)[0] == line[3]);
        }
    }
}

/// The boot time is the number that is the first word behind `btime` and a space, on
/// the first line that begins so, whatever else the file holds and whether or not it
/// was trimmed. Without such a line there is none.
pub proof fn law_boot_time_is_on_its_line(rows: Seq<Row>, i: int, n: u64, more: Seq<char>)
    requires
        are_lines(rows),
        more.len() > 0 ==> is_white(more[0]),
    ensures
        0 <= i < rows.len() && rows[i].label == "btime "@ && rows[i].value == decimal(n as nat) + more
            && (forall|j: int| 0 <= j < i ==> !begins((#[trigger] rows[j]).line(), "btime "@))
            ==> stat_btime_of(table(rows)) == Some(n) && stat_btime_of(trim_of(table(rows)))
            == Some(n),
        (forall|j: int| 0 <= j < rows.len() ==> !begins((#[trigger] rows[j]).line(), "btime "@))
            ==> stat_btime_of(table(rows)) is None && stat_btime_of(trim_of(table(rows))) is None,
{
    lemma_table_lines(rows);
    lemma_table_trimmed(rows);
    if 0 <= i < rows.len() && rows[i].label == "btime "@ && rows[i].value == decimal(n as nat) + more
        && (forall|j: int| 0 <= j < i ==> !begins((#[trigger] rows[j]).line(), "btime "@)) {
        lemma_row_found(rows, i);
        lemma_leading_decimal(0, n, more);
        assert(Seq::new(0, |k: int| ' ') + decimal(n as nat) + more =~= rows[i].value);
    }
    if forall|j: int| 0 <= j < rows.len() ==> !begins((#[trigger] rows[j]).line(), "btime "@) {
        lemma_row_missing(rows, "btime "@);
    }
}

/// `/proc/meminfo` as the kernel writes it: on each line a key, a colon, spaces, a
/// number and its unit.
pub open spec fn meminfo_text(fields: Seq<(Seq<char>, nat, u64)>) -> Seq<char> {
    table(meminfo_rows(fields))
}

/// The lines of `/proc/meminfo`.
pub open spec fn meminfo_rows(fields: Seq<(Seq<char>, nat, u64)>) -> Seq<Row> {
    Seq::new(
        fields.len(),
        |i: int|
            Row {
                label: fields[i].0 + seq![':'],
                value: Seq::new(fields[i].1, |k: int| ' ') + decimal(fields[i].2 as nat) + " kB"@,
            },
    )
}

/// Whether the keys are words without a colon, and no key is there twice.
pub open spec fn are_fields(fields: Seq<(Seq<char>, nat, u64)>) -> bool {
    &&& forall|i: int| 0 <= i < fields.len() ==> (#[trigger] fields[i]).0.len() > 0
    &&& forall|i: int, k: int|
        0 <= i < fields.len() && 0 <= k < fields[i].0.len() ==> !is_white(
            #[trigger] fields[i].0[k],
        ) && fields[i].0[k] != ':'
    &&& forall|i: int, j: int|
        0 <= i < j < fields.len() ==> (#[trigger] fields[i]).0 != (#[trigger] fields[j]).0
}

/// Every line of `/proc/meminfo` is one.
proof fn lemma_meminfo_rows(fields: Seq<(Seq<char>, nat, u64)>)
    requires
        are_fields(fields),
    ensures
        are_lines(meminfo_rows(fields)),
        forall|i: int| 0 <= i < fields.len() ==> !(#[trigger] fields[i]).0.contains(':'),
{
    reveal_strlit(" kB");
    let rows = meminfo_rows(fields);
    assert forall|i: int| 0 <= i < fields.len() implies !(#[trigger] fields[i]).0.contains(':') by {
        let k = fields[i].0;
        if k.contains(':') {
            let x = choose|x: int| 0 <= x < k.len() && k[x] == ':';
            assert(fields[i].0[x] != ':');
        }
    }
    assert forall|i: int| 0 <= i < rows.len() implies (#[trigger] rows[i]).is_line() by {
        let k = fields[i].0;
        let pad = fields[i].1;
        let d = decimal(fields[i].2 as nat);
        let lead = Seq::new(pad, |x: int| ' ');
        lemma_decimal_solid(fields[i].2 as nat);
        let line = rows[i].line();
        assert(line =~= k + seq![':'] + lead + d + " kB"@);
        assert(!is_white(fields[i].0[0]));
        assert(line[0] == k[0]);
        assert(line.last() == 'B');
        assert(!line.contains('\n')) by {
            if line.contains('\n') {
                let x = choose|x: int| 0 <= x < line.len() && line[x] == '\n';
                let y = x - k.len() - 1 - pad;
                if x < k.len() {
                    assert(!is_white(fields[i].0[x]));
                } else if 0 <= y < d.len() {
                    assert(d[y] == '\n');
                }
            }
        }
    }
}

/// Every field of `/proc/meminfo` is read back, under its own key and whatever the
/// order of the lines, as the number of bytes that its number of KiB is, where that
/// fits 64 bits; a key that was not written has none. Trimming changes nothing.
pub proof fn law_meminfo_fields_read_back(fields: Seq<(Seq<char>, nat, u64)>, key: Seq<char>)
    requires
        are_fields(fields),
        !key.contains(':'),
    ensures
        forall|i: int|
            0 <= i < fields.len() && (#[trigger] fields[i]).0 == key ==> meminfo_bytes_of(
                meminfo_text(fields),
                key,
            ) == (if fields[i].2 * 1024 <= u64::MAX {
                Some((fields[i].2 * 1024) as u64)
            } else {
                None
            }),
        (forall|i: int| 0 <= i < fields.len() ==> (#[trigger] fields[i]).0 != key)
            ==> meminfo_bytes_of(meminfo_text(fields), key) is None,
        meminfo_bytes_of(trim_of(meminfo_text(fields)), key) == meminfo_bytes_of(
            meminfo_text(fields),
            key,
        ),
{
    reveal_strlit(":");
    reveal_strlit(" kB");
    let rows = meminfo_rows(fields);
    let label = key + ":"@;
    assert(label =~= key + seq![':']);
    lemma_meminfo_rows(fields);
    lemma_table_lines(rows);
    lemma_table_trimmed(rows);
    assert forall|j: int| 0 <= j < rows.len() && begins((#[trigger] rows[j]).line(), label) implies fields[j].0
        == key by {
        assert(!fields[j].0.contains(':'));
        assert(rows[j].line() =~= fields[j].0 + seq![':'] + rows[j].value);
        lemma_keys_differ(fields[j].0, ':', rows[j].value, key);
    }
    assert forall|i: int| 0 <= i < fields.len() && (#[trigger] fields[i]).0 == key implies meminfo_bytes_of(
        meminfo_text(fields),
        key,
    ) == (if fields[i].2 * 1024 <= u64::MAX {
        Some((fields[i].2 * 1024) as u64)
    } else {
        None
    }) by {
        assert forall|j: int| 0 <= j < i implies !begins(
            (#[trigger] rows[j]).line(),
            rows[i].label,
        ) by {
            if begins(rows[j].line(), label) {
                assert(fields[j].0 == fields[i].0);
            }
        }
        lemma_row_found(rows, i);
        lemma_leading_decimal(fields[i].1, fields[i].2, " kB"@);
    }
    if forall|i: int| 0 <= i < fields.len() ==> (#[trigger] fields[i]).0 != key {
        assert forall|j: int| 0 <= j < rows.len() implies !begins(
            (#[trigger] rows[j]).line(),
            label,
        ) by {
            if begins(rows[j].line(), label) {
                assert(fields[j].0 == key);
            }
        }
        lemma_row_missing(rows, label);
    }
}

/// The children of a directory are the directory, a slash and each name, in order.
pub proof fn law_children_are_below_their_directory(dir: Seq<char>, names: Seq<Seq<char>>)
    ensures
        children_of(dir, names).len() == names.len(),
        forall|i: int|
            0 <= i < names.len() ==> #[trigger] children_of(dir, names)[i] == dir + seq!['/']
                + names[i],
{
    assert forall|i: int| 0 <= i < names.len() implies #[trigger] children_of(dir, names)[i] == dir
        + seq!['/'] + names[i] by {
        law_a_file_is_behind_a_slash(dir, names[i]);
    }
}

/// No figure is made up: a boot time and a field of memory are the number that is the
/// first word behind their label, on the first line that begins with it.
pub proof fn law_no_number_is_made_up(text: Seq<char>, key: Seq<char>, value: Seq<char>)
    ensures
        first_after(lines_of(text), "btime "@) == Some(value) && words_of(value).len() > 0
            ==> stat_btime_of(text) == u64_of(words_of(value)[0]),
        first_after(lines_of(text), "btime "@) == Some(value) && words_of(value).len() == 0
            ==> stat_btime_of(text) is None,
        first_after(lines_of(text), "btime "@) is None ==> stat_btime_of(text) is None,
        first_after(lines_of(text), key + seq![':']) == Some(value) && words_of(value).len() > 0 ==> (
        match u64_of(words_of(value)[0]) {
            Some(kib) => {
                &&& kib * 1024 <= u64::MAX ==> (meminfo_bytes_of(text, key) matches Some(b) && b
                    == kib * 1024)
                &&& kib * 1024 > u64::MAX ==> meminfo_bytes_of(text, key) is None
            },
            None => meminfo_bytes_of(text, key) is None,
        }),
        meminfo_bytes_of(text, key) is Some ==> first_after(lines_of(text), key + seq![':']) is Some,
        first_after(lines_of(text), key + seq![':']) == Some(value) && words_of(value).len() == 0
            ==> meminfo_bytes_of(text, key) is None,
{
    reveal_strlit(":");
    assert(key + ":"@ =~= key + seq![':']);
}

/// A figure of a pressure file is what stands behind its key in the first word that
/// the key begins, on the first line that the tag begins; an average must denote a
/// value and a total a number.
pub proof fn law_a_figure_is_behind_its_key(
    text: Seq<char>,
    tag: Seq<char>,
    line: Seq<char>,
    head: Seq<Seq<char>>,
    key: Seq<char>,
    t: Seq<char>,
    tail: Seq<Seq<char>>,
)
    requires
        first_with(lines_of(text), tag) == Some(line),
        words_of(line) == head + seq![key + t] + tail,
        forall|i: int, r: Seq<char>| 0 <= i < head.len() ==> #[trigger] head[i] != #[trigger] (key
            + r),
    ensures
        psi_token_of(text, tag, key) == Some(t),
        is_float(t) ==> psi_avg_of(text, tag, key) == Some(t),
        !is_float(t) ==> psi_avg_of(text, tag, key) is None,
        key == "total="@ ==> psi_total_of(text, tag) == u64_of(t),
{
    law_the_first_part_with_a_prefix(head, key, t, tail);
}

/// Without a line that the tag begins, or a word on it that the key begins, there is
/// no figure.
pub proof fn law_no_key_no_figure(text: Seq<char>, tag: Seq<char>, key: Seq<char>)
    requires
        first_with(lines_of(text), tag) matches Some(line) ==> first_with(words_of(line), key)
            is None,
    ensures
        psi_token_of(text, tag, key) is None,
        psi_avg_of(text, tag, key) is None,
        key == "total="@ ==> psi_total_of(text, tag) is None,
{
}

} // verus!
