//! Files of labelled lines, as the kernel writes them.
//!
//! Nothing here is executable. A table is the text that a file of such lines is, so
//! that it can be said of a parser what it reads back of what was written.
use vstd::prelude::*;

use crate::text::{
    begins, first_after, first_with, is_white, law_newlines_end_lines, lemma_lines_concat,
    lemma_trim, lines_of, trim_of,
};

verus! {

/// One line of a file: a label and a value behind it.
pub struct Row {
    pub label: Seq<char>,
    pub value: Seq<char>,
}

impl Row {
    /// The line without its ending.
    pub open spec fn line(self) -> Seq<char> {
        self.label + self.value
    }

    /// Whether the line is one, and neither begins nor ends in whitespace.
    pub open spec fn is_line(self) -> bool {
        &&& self.line().len() > 0
        &&& !self.line().contains('\n')
        &&& !is_white(self.line()[0])
        &&& !is_white(self.line().last())
    }
}

/// The text of a file with these rows, each ended by a newline.
pub open spec fn table(rows: Seq<Row>) -> Seq<char>
    decreases rows.len(),
{
    if rows.len() == 0 {
        Seq::empty()
    } else {
        table(rows.drop_last()) + rows.last().label + rows.last().value + seq!['\n']
    }
}

/// Whether every row is a line.
pub open spec fn are_lines(rows: Seq<Row>) -> bool {
    forall|i: int| 0 <= i < rows.len() ==> (#[trigger] rows[i]).is_line()
}

/// The lines of a file with these rows.
pub open spec fn row_lines(rows: Seq<Row>) -> Seq<Seq<char>> {
    Seq::new(rows.len(), |i: int| rows[i].line())
}

/// The lines of a table are those of its rows.
pub proof fn lemma_table_lines(rows: Seq<Row>)
    requires
        are_lines(rows),
    ensures
        lines_of(table(rows)) == row_lines(rows),
        rows.len() > 0 ==> table(rows).len() > 0 && table(rows).last() == '\n',
    decreases rows.len(),
{
    let nothing = Seq::<char>::empty();
    law_newlines_end_lines(nothing, nothing);
    if rows.len() == 0 {
        assert(row_lines(rows) =~= Seq::empty());
    } else {
        let init = rows.drop_last();
        let line = rows.last().line();
        assert(rows[rows.len() - 1].is_line());
        assert forall|i: int| 0 <= i < init.len() implies (#[trigger] init[i]).is_line() by {
            assert(rows[i].is_line());
        }
        lemma_table_lines(init);
        law_newlines_end_lines(line, nothing);
        let own = line + seq!['\n'] + nothing;
        assert(is_white('\r'));
        lemma_lines_concat(table(init), own);
        assert(table(rows) =~= table(init) + own);
        assert(row_lines(rows) =~= row_lines(init) + (seq![line] + Seq::<Seq<char>>::empty()));
    }
}

/// Trimming a table takes nothing but the last newline, and no line with it.
pub proof fn lemma_table_trimmed(rows: Seq<Row>)
    requires
        are_lines(rows),
    ensures
        lines_of(trim_of(table(rows))) == row_lines(rows),
{
    let nothing = Seq::<char>::empty();
    law_newlines_end_lines(nothing, nothing);
    if rows.len() == 0 {
        assert(row_lines(rows) =~= Seq::empty());
        crate::text::law_trimming_strips_the_ends(nothing, nothing, nothing);
    } else {
        let init = rows.drop_last();
        let line = rows.last().line();
        let s = table(init) + line;
        assert(rows[rows.len() - 1].is_line());
        assert forall|i: int| 0 <= i < init.len() implies (#[trigger] init[i]).is_line() by {
            assert(rows[i].is_line());
        }
        lemma_table_lines(init);
        lemma_table_begins(rows);
        assert(table(rows) =~= nothing + s + seq!['\n']);
        assert(s[0] == table(rows)[0]);
        assert(s.last() == line.last());
        lemma_trim(nothing, s, seq!['\n']);
        lemma_lines_concat(table(init), line);
        law_newlines_end_lines(line, nothing);
        assert(row_lines(rows) =~= row_lines(init) + seq![line]);
    }
}

/// A table does not begin in whitespace.
proof fn lemma_table_begins(rows: Seq<Row>)
    requires
        are_lines(rows),
        rows.len() > 0,
    ensures
        table(rows).len() > 0,
        !is_white(table(rows)[0]),
    decreases rows.len(),
{
    let init = rows.drop_last();
    let line = rows.last().line();
    assert(rows[rows.len() - 1].is_line());
    assert(table(rows) =~= table(init) + (line + seq!['\n']));
    if init.len() > 0 {
        assert forall|i: int| 0 <= i < init.len() implies (#[trigger] init[i]).is_line() by {
            assert(rows[i].is_line());
        }
        lemma_table_begins(init);
    } else {
        assert(table(init) =~= Seq::empty());
        assert(table(rows)[0] == line[0]);
    }
}

/// The row that is found by its label is the first that begins with it.
pub proof fn lemma_row_found(rows: Seq<Row>, i: int)
    requires
        0 <= i < rows.len(),
        forall|j: int| 0 <= j < i ==> !begins((#[trigger] rows[j]).line(), rows[i].label),
    ensures
        first_with(row_lines(rows), rows[i].label) == Some(rows[i].line()),
        first_after(row_lines(rows), rows[i].label) == Some(rows[i].value),
    decreases i,
{
    let parts = row_lines(rows);
    let label = rows[i].label;
    assert(parts[0] == rows[0].line());
    if i == 0 {
        assert(rows[0].line().take(label.len() as int) =~= label);
        assert(begins(parts[0], label));
    } else {
        assert(!begins(rows[0].line(), label));
        let rest = rows.drop_first();
        assert(parts.drop_first() =~= row_lines(rest));
        assert forall|j: int| 0 <= j < i - 1 implies !begins(
            (#[trigger] rest[j]).line(),
            rest[i - 1].label,
        ) by {
            assert(rest[j] == rows[j + 1]);
        }
        lemma_row_found(rest, i - 1);
    }
    assert(rows[i].line().skip(label.len() as int) =~= rows[i].value);
}

/// No row is found by a label that none begins with.
pub proof fn lemma_row_missing(rows: Seq<Row>, label: Seq<char>)
    requires
        forall|j: int| 0 <= j < rows.len() ==> !begins((#[trigger] rows[j]).line(), label),
    ensures
        first_with(row_lines(rows), label) is None,
    decreases rows.len(),
{
    let parts = row_lines(rows);
    if rows.len() > 0 {
        let rest = rows.drop_first();
        assert(parts[0] == rows[0].line());
        assert(parts.drop_first() =~= row_lines(rest));
        assert forall|j: int| 0 <= j < rest.len() implies !begins(
            (#[trigger] rest[j]).line(),
            label,
        ) by {
            assert(rest[j] == rows[j + 1]);
        }
        lemma_row_missing(rest, label);
    }
}

/// Keys that hold no separator are told apart by what stands before it.
pub proof fn lemma_keys_differ(key: Seq<char>, sep: char, value: Seq<char>, other: Seq<char>)
    requires
        !key.contains(sep),
        !other.contains(sep),
        begins(key + seq![sep] + value, other + seq![sep]),
    ensures
        key == other,
{
    let line = key + seq![sep] + value;
    let label = other + seq![sep];
    assert forall|i: int| 0 <= i < label.len() implies line[i] == #[trigger] label[i] by {
        assert(line.take(label.len() as int)[i] == label[i]);
    }
    if other.len() < key.len() {
        assert(label[other.len() as int] == sep);
        assert(key[other.len() as int] == sep);
    } else if key.len() < other.len() {
        assert(label[key.len() as int] == other[key.len() as int]);
        assert(other[key.len() as int] == sep);
    } else {
        assert forall|i: int| 0 <= i < key.len() implies key[i] == other[i] by {
            assert(label[i] == other[i]);
        }
        assert(key =~= other);
    }
}

} // verus!
