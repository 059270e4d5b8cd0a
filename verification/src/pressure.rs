//! Kernel pressure-stall information: the two shapes in which it is reported.
//!
//! Each average is a percentage of wall-clock time over the trailing 10, 60 or
//! 300 seconds. Each total is cumulative microseconds, and monotonic.
use vstd::prelude::*;

use crate::number::{
    decimal, is_float, law_decimal_reads_back, lemma_decimal_solid, lemma_float_solid, u64_of, FloatText,
};
use crate::proc::{psi_avg, psi_avg_of, psi_total, psi_total_of};
use crate::table::{
    are_lines, lemma_row_found, lemma_row_missing, lemma_table_lines, table, Row,
};
use crate::text::{
    begins, first_after, first_with, is_white, lemma_begins_once, lemma_first_with, lemma_line,
    lemma_words_cons, lemma_words_one, lines_of, words_of,
};

verus! {

broadcast use vstd::string::group_string_axioms;

/// CPU pressure of a whole machine: time during which at least one task was
/// runnable but not scheduled.
///
/// Only `some` is reported. That every task is stalled is impossible for the CPU
/// of a whole machine, and a field that is always zero would invite meaning to be
/// read into it.
pub struct CpuPressure {
    pub some_avg10: FloatText,
    pub some_avg60: FloatText,
    pub some_avg300: FloatText,
    pub some_total_us: u64,
}

/// Stall time for one resource.
///
/// `some` is the share of time at least one task was stalled; `full` the share
/// in which every task was, so that no useful work was done at all.
pub struct Pressure {
    pub some_avg10: FloatText,
    pub full_avg10: FloatText,
    pub some_avg60: FloatText,
    pub full_avg60: FloatText,
    pub some_avg300: FloatText,
    pub full_avg300: FloatText,
    pub some_total_us: u64,
    pub full_total_us: u64,
}

/// CPU pressure with its averages taken as characters.
pub struct CpuPressureView {
    pub some_avg10: Seq<char>,
    pub some_avg60: Seq<char>,
    pub some_avg300: Seq<char>,
    pub some_total_us: u64,
}

/// Pressure with its averages taken as characters.
pub struct PressureView {
    pub some_avg10: Seq<char>,
    pub full_avg10: Seq<char>,
    pub some_avg60: Seq<char>,
    pub full_avg60: Seq<char>,
    pub some_avg300: Seq<char>,
    pub full_avg300: Seq<char>,
    pub some_total_us: u64,
    pub full_total_us: u64,
}

impl View for CpuPressure {
    type V = CpuPressureView;

    open spec fn view(&self) -> CpuPressureView {
        CpuPressureView {
            some_avg10: self.some_avg10@,
            some_avg60: self.some_avg60@,
            some_avg300: self.some_avg300@,
            some_total_us: self.some_total_us,
        }
    }
}

impl View for Pressure {
    type V = PressureView;

    open spec fn view(&self) -> PressureView {
        PressureView {
            some_avg10: self.some_avg10@,
            full_avg10: self.full_avg10@,
            some_avg60: self.some_avg60@,
            full_avg60: self.full_avg60@,
            some_avg300: self.some_avg300@,
            full_avg300: self.full_avg300@,
            some_total_us: self.some_total_us,
            full_total_us: self.full_total_us,
        }
    }
}

/// An optional value taken by its view.
pub open spec fn option_view<T: View>(value: Option<T>) -> Option<T::V> {
    match value {
        Some(v) => Some(v@),
        None => None,
    }
}

/// The three averages and the total of the line of `text` that begins with
/// `line`, where all four are there.
pub open spec fn stall_of(text: Seq<char>, line: Seq<char>) -> Option<
    (Seq<char>, Seq<char>, Seq<char>, u64),
> {
    match (
        psi_avg_of(text, line, "avg10="@),
        psi_avg_of(text, line, "avg60="@),
        psi_avg_of(text, line, "avg300="@),
        psi_total_of(text, line),
    ) {
        (Some(avg10), Some(avg60), Some(avg300), Some(total)) => Some(
            (avg10, avg60, avg300, total),
        ),
        _ => None,
    }
}

/// The CPU pressure in `text`: there only where the `some` line is complete.
pub open spec fn cpu_pressure_of(text: Seq<char>) -> Option<CpuPressureView> {
    match stall_of(text, "some "@) {
        Some((some_avg10, some_avg60, some_avg300, some_total_us)) => Some(
            CpuPressureView { some_avg10, some_avg60, some_avg300, some_total_us },
        ),
        None => None,
    }
}

/// The pressure in `text`: there only where both lines are complete.
pub open spec fn pressure_of(text: Seq<char>) -> Option<PressureView> {
    match (stall_of(text, "some "@), stall_of(text, "full "@)) {
        (Some(some), Some(full)) => Some(
            PressureView {
                some_avg10: some.0,
                full_avg10: full.0,
                some_avg60: some.1,
                full_avg60: full.1,
                some_avg300: some.2,
                full_avg300: full.2,
                some_total_us: some.3,
                full_total_us: full.3,
            },
        ),
        _ => None,
    }
}

/// Parse the three averages and the total of one line.
fn parse_stall(text: &str, line: &str) -> (r: Option<(FloatText, FloatText, FloatText, u64)>)
    ensures
        match r {
            Some((avg10, avg60, avg300, total)) => stall_of(text@, line@) == Some(
                (avg10@, avg60@, avg300@, total),
            ),
            None => stall_of(text@, line@) is None,
        },
{
    match (
        psi_avg(text, line, "avg10="),
        psi_avg(text, line, "avg60="),
        psi_avg(text, line, "avg300="),
        psi_total(text, line),
    ) {
        (Some(avg10), Some(avg60), Some(avg300), Some(total)) => Some(
            (avg10, avg60, avg300, total),
        ),
        _ => None,
    }
}

/// Parse the pressure file of a machine's CPUs.
pub fn parse_cpu_pressure(text: &str) -> (r: Option<CpuPressure>)
    ensures
        option_view(r) == cpu_pressure_of(text@),
{
    match parse_stall(text, "some ") {
        Some((some_avg10, some_avg60, some_avg300, some_total_us)) => Some(
            CpuPressure { some_avg10, some_avg60, some_avg300, some_total_us },
        ),
        None => None,
    }
}

/// Parse a pressure file.
pub fn parse_pressure(text: &str) -> (r: Option<Pressure>)
    ensures
        option_view(r) == pressure_of(text@),
{
    match (parse_stall(text, "some "), parse_stall(text, "full ")) {
        (Some(some), Some(full)) => Some(
            Pressure {
                some_avg10: some.0,
                full_avg10: full.0,
                some_avg60: some.1,
                full_avg60: full.1,
                some_avg300: some.2,
                full_avg300: full.2,
                some_total_us: some.3,
                full_total_us: full.3,
            },
        ),
        _ => None,
    }
}

/// Read one pressure file, given its text where the kernel provides it.
pub open spec fn read_pressure_of(text: Option<Seq<char>>) -> Option<PressureView> {
    match text {
        Some(t) => pressure_of(t),
        None => None,
    }
}

/// Read one pressure file, given its text where the kernel provides it. A file
/// that is missing and one that does not parse are both absent.
pub fn read_pressure(text: Option<&str>) -> (r: Option<Pressure>)
    ensures
        option_view(r) == read_pressure_of(crate::proc::text_view(text)),
{
    match text {
        Some(t) => parse_pressure(t),
        None => None,
    }
}

/// A file from which the pressure of a resource can be read also yields its
/// `some` line alone, and the two agree.
pub proof fn law_some_is_part_of_both(text: Seq<char>)
    ensures
        match pressure_of(text) {
            Some(both) => cpu_pressure_of(text) == Some(
                CpuPressureView {
                    some_avg10: both.some_avg10,
                    some_avg60: both.some_avg60,
                    some_avg300: both.some_avg300,
                    some_total_us: both.some_total_us,
                },
            ),
            None => true,
        },
{
}

/// One line of a pressure file as the kernel writes it: its tag, the three averages
/// and the total.
pub open spec fn stall_line(tag: Seq<char>, s: (Seq<char>, Seq<char>, Seq<char>, u64)) -> Seq<char> {
    tag + seq![' '] + ("avg10="@ + s.0 + seq![' '] + ("avg60="@ + s.1 + seq![' '] + ("avg300="@
        + s.2 + seq![' '] + ("total="@ + decimal(s.3 as nat)))))
}

/// A key with a value behind it is a word where the value is.
proof fn lemma_token(key: Seq<char>, value: Seq<char>)
    requires
        key.len() > 0,
        forall|i: int| 0 <= i < key.len() ==> !is_white(#[trigger] key[i]),
        forall|i: int| 0 <= i < value.len() ==> !is_white(#[trigger] value[i]),
    ensures
        (key + value).len() > 0,
        forall|i: int| 0 <= i < (key + value).len() ==> !is_white(#[trigger] (key + value)[i]),
        begins(key + value, key),
        (key + value).skip(key.len() as int) == value,
{
    let t = key + value;
    assert forall|i: int| 0 <= i < t.len() implies !is_white(#[trigger] t[i]) by {
        if i < key.len() {
            assert(t[i] == key[i]);
        } else {
            assert(t[i] == value[i - key.len()]);
        }
    }
    assert(t.take(key.len() as int) =~= key);
    assert(t.skip(key.len() as int) =~= value);
}

/// The words of a line that the kernel writes.
proof fn lemma_stall_words(tag: Seq<char>, s: (Seq<char>, Seq<char>, Seq<char>, u64))
    requires
        tag == "some"@ || tag == "full"@,
        is_float(s.0),
        is_float(s.1),
        is_float(s.2),
    ensures
        words_of(stall_line(tag, s)) == seq![
            tag,
            "avg10="@ + s.0,
            "avg60="@ + s.1,
            "avg300="@ + s.2,
            "total="@ + decimal(s.3 as nat),
        ],
{
    reveal_strlit("some");
    reveal_strlit("full");
    reveal_strlit("avg10=");
    reveal_strlit("avg60=");
    reveal_strlit("avg300=");
    reveal_strlit("total=");
    let total = decimal(s.3 as nat);
    lemma_float_solid(s.0);
    lemma_float_solid(s.1);
    lemma_float_solid(s.2);
    lemma_decimal_solid(s.3 as nat);
    let a = "avg10="@ + s.0;
    let b = "avg60="@ + s.1;
    let c = "avg300="@ + s.2;
    let d = "total="@ + total;
    lemma_token("avg10="@, s.0);
    lemma_token("avg60="@, s.1);
    lemma_token("avg300="@, s.2);
    lemma_token("total="@, total);
    lemma_words_one(d);
    lemma_words_cons(c, d);
    lemma_words_cons(b, c + seq![' '] + d);
    lemma_words_cons(a, b + seq![' '] + (c + seq![' '] + d));
    lemma_words_cons(tag, a + seq![' '] + (b + seq![' '] + (c + seq![' '] + d)));
    assert(words_of(stall_line(tag, s)) =~= seq![tag, a, b, c, d]);
}

/// Passing over a part that begins otherwise.
proof fn lemma_pass(parts: Seq<Seq<char>>, own: Seq<char>, prefix: Seq<char>, i: int)
    requires
        parts.len() > 0,
        begins(parts[0], own),
        0 <= i < own.len(),
        i < prefix.len(),
        own[i] != prefix[i],
    ensures
        first_with(parts, prefix) == first_with(parts.drop_first(), prefix),
{
    lemma_begins_once(parts[0], own, prefix, i);
}

/// The figures of a line are found where the line is.
proof fn lemma_stall(text: Seq<char>, tag: Seq<char>, s: (Seq<char>, Seq<char>, Seq<char>, u64))
    requires
        tag == "some"@ || tag == "full"@,
        is_float(s.0),
        is_float(s.1),
        is_float(s.2),
        first_with(lines_of(text), tag + seq![' ']) == Some(stall_line(tag, s)),
    ensures
        stall_of(text, tag + seq![' ']) == Some(s),
{
    reveal_strlit("some");
    reveal_strlit("full");
    reveal_strlit("avg10=");
    reveal_strlit("avg60=");
    reveal_strlit("avg300=");
    reveal_strlit("total=");
    lemma_stall_words(tag, s);
    let w = words_of(stall_line(tag, s));
    lemma_float_solid(s.0);
    lemma_float_solid(s.1);
    lemma_float_solid(s.2);
    lemma_decimal_solid(s.3 as nat);
    lemma_token("avg10="@, s.0);
    lemma_token("avg60="@, s.1);
    lemma_token("avg300="@, s.2);
    lemma_token("total="@, decimal(s.3 as nat));
    assert(tag.take(tag.len() as int) =~= tag);
    let w1 = w.drop_first();
    let w2 = w1.drop_first();
    let w3 = w2.drop_first();
    lemma_pass(w, tag, "avg10="@, 0);
    lemma_pass(w, tag, "avg60="@, 0);
    lemma_pass(w1, "avg10="@, "avg60="@, 3);
    lemma_pass(w, tag, "avg300="@, 0);
    lemma_pass(w1, "avg10="@, "avg300="@, 3);
    lemma_pass(w2, "avg60="@, "avg300="@, 3);
    lemma_pass(w, tag, "total="@, 0);
    lemma_pass(w1, "avg10="@, "total="@, 0);
    lemma_pass(w2, "avg60="@, "total="@, 0);
    lemma_pass(w3, "avg300="@, "total="@, 0);
    law_decimal_reads_back(s.3);
}

/// A line that the kernel writes holds no line ending.
proof fn lemma_stall_line(tag: Seq<char>, s: (Seq<char>, Seq<char>, Seq<char>, u64))
    requires
        tag == "some"@ || tag == "full"@,
        is_float(s.0),
        is_float(s.1),
        is_float(s.2),
    ensures
        !stall_line(tag, s).contains('\n'),
        stall_line(tag, s).len() > 0,
        stall_line(tag, s).last() != '\r',
        begins(stall_line(tag, s), tag + seq![' ']),
{
    reveal_strlit("some");
    reveal_strlit("full");
    reveal_strlit("avg10=");
    reveal_strlit("avg60=");
    reveal_strlit("avg300=");
    reveal_strlit("total=");
    let total = decimal(s.3 as nat);
    lemma_float_solid(s.0);
    lemma_float_solid(s.1);
    lemma_float_solid(s.2);
    lemma_decimal_solid(s.3 as nat);
    lemma_token("avg10="@, s.0);
    lemma_token("avg60="@, s.1);
    lemma_token("avg300="@, s.2);
    lemma_token("total="@, total);
    let a = "avg10="@ + s.0;
    let b = "avg60="@ + s.1;
    let c = "avg300="@ + s.2;
    let d = "total="@ + total;
    let line = stall_line(tag, s);
    assert(line =~= tag + seq![' '] + a + seq![' '] + b + seq![' '] + c + seq![' '] + d);
    assert(line.last() == d.last());
    assert(!is_white(d[d.len() - 1]));
    assert(line.take((tag.len() + 1) as int) =~= tag + seq![' ']);
    assert(!line.contains('\n')) by {
        if line.contains('\n') {
            let i = choose|i: int| 0 <= i < line.len() && line[i] == '\n';
            let i1 = i - tag.len() - 1;
            let i2 = i1 - a.len() - 1;
            let i3 = i2 - b.len() - 1;
            let i4 = i3 - c.len() - 1;
            if i4 >= 0 {
                assert(line[i] == d[i4]);
            } else if 0 <= i3 < c.len() {
                assert(line[i] == c[i3]);
            } else if 0 <= i2 < b.len() {
                assert(line[i] == b[i2]);
            } else if 0 <= i1 < a.len() {
                assert(line[i] == a[i1]);
            }
        }
    }
}

/// A pressure file is read back as what the kernel wrote into it: each average by
/// the text that denotes it, and each total by its value.
pub proof fn law_pressure_reads_back(
    some: (Seq<char>, Seq<char>, Seq<char>, u64),
    full: (Seq<char>, Seq<char>, Seq<char>, u64),
)
    requires
        is_float(some.0),
        is_float(some.1),
        is_float(some.2),
        is_float(full.0),
        is_float(full.1),
        is_float(full.2),
    ensures
        ({
            let text = stall_line("some"@, some) + seq!['\n'] + (stall_line("full"@, full)
                + seq!['\n']);
            &&& cpu_pressure_of(text) == Some(
                CpuPressureView {
                    some_avg10: some.0,
                    some_avg60: some.1,
                    some_avg300: some.2,
                    some_total_us: some.3,
                },
            )
            &&& pressure_of(text) == Some(
                PressureView {
                    some_avg10: some.0,
                    full_avg10: full.0,
                    some_avg60: some.1,
                    full_avg60: full.1,
                    some_avg300: some.2,
                    full_avg300: full.2,
                    some_total_us: some.3,
                    full_total_us: full.3,
                },
            )
        }),
{
    reveal_strlit("some");
    reveal_strlit("full");
    reveal_strlit("some ");
    reveal_strlit("full ");
    assert("some "@ =~= "some"@ + seq![' ']);
    assert("full "@ =~= "full"@ + seq![' ']);
    let one = stall_line("some"@, some);
    let two = stall_line("full"@, full);
    let nothing = Seq::<char>::empty();
    let text = one + seq!['\n'] + (two + seq!['\n']);
    lemma_stall_line("some"@, some);
    lemma_stall_line("full"@, full);
    lemma_line(two, nothing);
    assert(two + seq!['\n'] + nothing =~= two + seq!['\n']);
    lemma_line(one, two + seq!['\n']);
    assert(lines_of(nothing) =~= Seq::empty());
    let parts = lines_of(text);
    assert(parts =~= seq![one, two]);
    lemma_pass(parts, "some "@, "full "@, 0);
    assert(parts.drop_first()[0] == two);
    lemma_stall(text, "some"@, some);
    lemma_stall(text, "full"@, full);
}

/// The figures of a resource are read from the first line with each tag, whatever
/// other lines the file has, as the kernel wrote them there: `some` from the line
/// tagged so and `full` from the line tagged so. Where there is no `full` line only
/// the shape without one can be read, and without a `some` line neither can.
pub proof fn law_each_tag_has_its_line(
    rows: Seq<Row>,
    i: int,
    j: int,
    some: (Seq<char>, Seq<char>, Seq<char>, u64),
    full: (Seq<char>, Seq<char>, Seq<char>, u64),
)
    requires
        are_lines(rows),
        is_float(some.0) && is_float(some.1) && is_float(some.2),
        is_float(full.0) && is_float(full.1) && is_float(full.2),
        0 <= i < rows.len(),
        rows[i].label == "some "@,
        rows[i].line() == stall_line("some"@, some),
        forall|k: int| 0 <= k < i ==> !begins((#[trigger] rows[k]).line(), "some "@),
    ensures
        ({
            let text = table(rows);
            &&& cpu_pressure_of(text) == Some(
                CpuPressureView {
                    some_avg10: some.0,
                    some_avg60: some.1,
                    some_avg300: some.2,
                    some_total_us: some.3,
                },
            )
            &&& 0 <= j < rows.len() && rows[j].label == "full "@ && rows[j].line() == stall_line(
                "full"@,
                full,
            ) && (forall|k: int| 0 <= k < j ==> !begins((#[trigger] rows[k]).line(), "full "@))
                ==> pressure_of(text) == Some(
                PressureView {
                    some_avg10: some.0,
                    full_avg10: full.0,
                    some_avg60: some.1,
                    full_avg60: full.1,
                    some_avg300: some.2,
                    full_avg300: full.2,
                    some_total_us: some.3,
                    full_total_us: full.3,
                },
            )
            &&& (forall|k: int|
                0 <= k < rows.len() ==> !begins((#[trigger] rows[k]).line(), "full "@))
                ==> pressure_of(text) is None
        }),
{
    reveal_strlit("some");
    reveal_strlit("full");
    reveal_strlit("some ");
    reveal_strlit("full ");
    assert("some "@ =~= "some"@ + seq![' ']);
    assert("full "@ =~= "full"@ + seq![' ']);
    let text = table(rows);
    lemma_table_lines(rows);
    lemma_row_found(rows, i);
    lemma_stall(text, "some"@, some);
    if 0 <= j < rows.len() && rows[j].label == "full "@ && rows[j].line() == stall_line(
        "full"@,
        full,
    ) && (forall|k: int| 0 <= k < j ==> !begins((#[trigger] rows[k]).line(), "full "@)) {
        lemma_row_found(rows, j);
        lemma_stall(text, "full"@, full);
    }
    if forall|k: int| 0 <= k < rows.len() ==> !begins((#[trigger] rows[k]).line(), "full "@) {
        lemma_row_missing(rows, "full "@);
    }
}

/// Without a `some` line nothing can be read.
pub proof fn law_no_some_line_no_pressure(rows: Seq<Row>)
    requires
        are_lines(rows),
        forall|k: int| 0 <= k < rows.len() ==> !begins((#[trigger] rows[k]).line(), "some "@),
    ensures
        cpu_pressure_of(table(rows)) is None,
        pressure_of(table(rows)) is None,
{
    lemma_table_lines(rows);
    lemma_row_missing(rows, "some "@);
}

/// No figure is made up: each that is reported stands in the file, behind its own
/// key, on the first line with its tag, and denotes a value of its kind.
pub proof fn law_no_figure_is_made_up(text: Seq<char>)
    ensures
        cpu_pressure_of(text) matches Some(p) ==> figures_stand_on(
            first_with(lines_of(text), "some "@),
            (p.some_avg10, p.some_avg60, p.some_avg300, p.some_total_us),
        ),
        pressure_of(text) matches Some(p) ==> figures_stand_on(
            first_with(lines_of(text), "some "@),
            (p.some_avg10, p.some_avg60, p.some_avg300, p.some_total_us),
        ) && figures_stand_on(
            first_with(lines_of(text), "full "@),
            (p.full_avg10, p.full_avg60, p.full_avg300, p.full_total_us),
        ),
{
    lemma_figures(text, "some "@);
    lemma_figures(text, "full "@);
}

/// Whether the three averages and the total are words of the line, each behind its
/// own key.
pub open spec fn figures_stand_on(
    line: Option<Seq<char>>,
    s: (Seq<char>, Seq<char>, Seq<char>, u64),
) -> bool {
    line matches Some(l) && {
        &&& words_of(l).contains("avg10="@ + s.0) && is_float(s.0)
        &&& words_of(l).contains("avg60="@ + s.1) && is_float(s.1)
        &&& words_of(l).contains("avg300="@ + s.2) && is_float(s.2)
        &&& exists|t: Seq<char>| #[trigger]
            u64_of(t) == Some(s.3) && words_of(l).contains("total="@ + t)
    }
}

/// What is found behind a key is a word of the line with the key in front.
proof fn lemma_found_behind(words: Seq<Seq<char>>, key: Seq<char>)
    ensures
        first_after(words, key) matches Some(t) ==> words.contains(key + t),
{
    lemma_first_with(words, key);
    match first_with(words, key) {
        Some(part) => {
            let i = choose|i: int|
                #![trigger words[i]]
                0 <= i < words.len() && words[i] == part && begins(part, key) && forall|j: int|
                    0 <= j < i ==> !begins(#[trigger] words[j], key);
            assert(part =~= key + part.skip(key.len() as int));
            assert(words[i] == part);
        },
        None => {},
    }
}

proof fn lemma_figures(text: Seq<char>, line: Seq<char>)
    ensures
        stall_of(text, line) matches Some(s) ==> figures_stand_on(
            first_with(lines_of(text), line),
            s,
        ),
{
    match first_with(lines_of(text), line) {
        Some(l) => {
            let w = words_of(l);
            lemma_found_behind(w, "avg10="@);
            lemma_found_behind(w, "avg60="@);
            lemma_found_behind(w, "avg300="@);
            lemma_found_behind(w, "total="@);
            match stall_of(text, line) {
                Some(s) => {
                    let t = first_after(w, "total="@)->0;
                    assert(u64_of(t) == Some(s.3));
                },
                None => {},
            }
        },
        None => {},
    }
}

/// A pressure file that is missing is absent, and one that is there is what it says.
pub proof fn law_a_missing_file_is_absent(text: Seq<char>)
    ensures
        read_pressure_of(None) is None,
        read_pressure_of(Some(text)) == pressure_of(text),
{
}

/// Pressure is shown with its own figures, each under its own name.
pub proof fn law_pressure_shows_its_figures(c: CpuPressure, p: Pressure)
    ensures
        c@.some_avg10 == c.some_avg10@,
        c@.some_avg60 == c.some_avg60@,
        c@.some_avg300 == c.some_avg300@,
        c@.some_total_us == c.some_total_us,
        p@.some_avg10 == p.some_avg10@,
        p@.full_avg10 == p.full_avg10@,
        p@.some_avg60 == p.some_avg60@,
        p@.full_avg60 == p.full_avg60@,
        p@.some_avg300 == p.some_avg300@,
        p@.full_avg300 == p.full_avg300@,
        p@.some_total_us == p.some_total_us,
        p@.full_total_us == p.full_total_us,
        option_view(Some(p)) == Some(p@),
        option_view(None::<Pressure>) is None,
{
}

/// The pressure of a resource is there exactly where all the figures of its lines
/// are, and then is those figures, each under its own name.
pub proof fn law_pressure_is_all_of_its_figures(
    text: Seq<char>,
    a: (Seq<char>, Seq<char>, Seq<char>, u64),
    b: (Seq<char>, Seq<char>, Seq<char>, u64),
)
    ensures
        cpu_pressure_of(text) == Some(
            CpuPressureView {
                some_avg10: a.0,
                some_avg60: a.1,
                some_avg300: a.2,
                some_total_us: a.3,
            },
        ) <==> {
            &&& psi_avg_of(text, "some "@, "avg10="@) == Some(a.0)
            &&& psi_avg_of(text, "some "@, "avg60="@) == Some(a.1)
            &&& psi_avg_of(text, "some "@, "avg300="@) == Some(a.2)
            &&& psi_total_of(text, "some "@) == Some(a.3)
        },
        pressure_of(text) == Some(
            PressureView {
                some_avg10: a.0,
                full_avg10: b.0,
                some_avg60: a.1,
                full_avg60: b.1,
                some_avg300: a.2,
                full_avg300: b.2,
                some_total_us: a.3,
                full_total_us: b.3,
            },
        ) <==> {
            &&& psi_avg_of(text, "some "@, "avg10="@) == Some(a.0)
            &&& psi_avg_of(text, "some "@, "avg60="@) == Some(a.1)
            &&& psi_avg_of(text, "some "@, "avg300="@) == Some(a.2)
            &&& psi_total_of(text, "some "@) == Some(a.3)
            &&& psi_avg_of(text, "full "@, "avg10="@) == Some(b.0)
            &&& psi_avg_of(text, "full "@, "avg60="@) == Some(b.1)
            &&& psi_avg_of(text, "full "@, "avg300="@) == Some(b.2)
            &&& psi_total_of(text, "full "@) == Some(b.3)
        },
{
}

} // verus!
