//! Text as the kernel writes it: lines, words, prefixes and surrounding
//! whitespace.
//!
//! Every function here works on whole characters, and its contract is a
//! specification function over the characters of its arguments.
use vstd::prelude::*;

verus! {

broadcast use vstd::string::group_string_axioms;

/// Whether `c` has the Unicode `White_Space` property.
pub open spec fn is_white(c: char) -> bool {
    let n = c as u32;
    ||| 0x09 <= n <= 0x0d
    ||| n == 0x20
    ||| n == 0x85
    ||| n == 0xa0
    ||| n == 0x1680
    ||| 0x2000 <= n <= 0x200a
    ||| n == 0x2028
    ||| n == 0x2029
    ||| n == 0x202f
    ||| n == 0x205f
    ||| n == 0x3000
}

/// The characters that are whitespace.
pub open spec fn white() -> spec_fn(char) -> bool {
    |c: char| is_white(c)
}

/// The characters that are not whitespace.
pub open spec fn solid() -> spec_fn(char) -> bool {
    |c: char| !is_white(c)
}

/// Every character but `stop`.
pub open spec fn but(stop: char) -> spec_fn(char) -> bool {
    |c: char| c != stop
}

/// The length of the longest prefix of `s` whose characters all satisfy `p`.
pub open spec fn span(s: Seq<char>, p: spec_fn(char) -> bool) -> int
    decreases s.len(),
{
    if s.len() == 0 || !p(s[0]) {
        0
    } else {
        1 + span(s.drop_first(), p)
    }
}

/// One line without its ending. A carriage return belongs to the ending only
/// where a newline follows it.
pub open spec fn line_body(line: Seq<char>, ended: bool) -> Seq<char> {
    if ended && line.len() > 0 && line.last() == '\r' {
        line.drop_last()
    } else {
        line
    }
}

/// The lines of `s`, without their endings. The last ending is optional.
pub open spec fn lines_of(s: Seq<char>) -> Seq<Seq<char>>
    decreases s.len(),
    via lines_of_decreases
{
    if s.len() == 0 {
        Seq::empty()
    } else {
        let n = span(s, but('\n'));
        if n < s.len() {
            seq![line_body(s.take(n), true)] + lines_of(s.skip(n + 1))
        } else {
            seq![line_body(s, false)]
        }
    }
}

#[via_fn]
proof fn lines_of_decreases(s: Seq<char>) {
    lemma_span(s, but('\n'));
}

/// The maximal runs of characters of `s` that are not whitespace.
pub open spec fn words_of(s: Seq<char>) -> Seq<Seq<char>>
    decreases s.len(),
    via words_of_decreases
{
    let rest = s.skip(span(s, white()));
    if rest.len() == 0 {
        Seq::empty()
    } else {
        let n = span(rest, solid());
        seq![rest.take(n)] + words_of(rest.skip(n))
    }
}

#[via_fn]
proof fn words_of_decreases(s: Seq<char>) {
    lemma_span(s, white());
    let rest = s.skip(span(s, white()));
    lemma_span(rest, solid());
}

/// The parts of `s` between the characters `sep`: one more than there are of
/// those.
pub open spec fn split_of(s: Seq<char>, sep: char) -> Seq<Seq<char>>
    decreases s.len(),
    via split_of_decreases
{
    let n = span(s, but(sep));
    if n < s.len() {
        seq![s.take(n)] + split_of(s.skip(n + 1), sep)
    } else {
        seq![s]
    }
}

#[via_fn]
proof fn split_of_decreases(s: Seq<char>, sep: char) {
    lemma_span(s, but(sep));
}

/// `s` without the whitespace it ends in.
pub open spec fn trim_end_of(s: Seq<char>) -> Seq<char>
    decreases s.len(),
{
    if s.len() > 0 && is_white(s.last()) {
        trim_end_of(s.drop_last())
    } else {
        s
    }
}

/// `s` without the whitespace it begins and ends in.
pub open spec fn trim_of(s: Seq<char>) -> Seq<char> {
    trim_end_of(s.skip(span(s, white())))
}

/// Whether `s` begins with `prefix`.
pub open spec fn begins(s: Seq<char>, prefix: Seq<char>) -> bool {
    prefix.len() <= s.len() && s.take(prefix.len() as int) == prefix
}

/// Whether `s` ends with `suffix`.
pub open spec fn ends(s: Seq<char>, suffix: Seq<char>) -> bool {
    suffix.len() <= s.len() && s.skip(s.len() - suffix.len()) == suffix
}

/// What follows `prefix` in `s`, where `s` begins with it.
pub open spec fn after(s: Seq<char>, prefix: Seq<char>) -> Option<Seq<char>> {
    if begins(s, prefix) {
        Some(s.skip(prefix.len() as int))
    } else {
        None
    }
}

/// What precedes `suffix` in `s`, where `s` ends with it.
pub open spec fn before(s: Seq<char>, suffix: Seq<char>) -> Option<Seq<char>> {
    if ends(s, suffix) {
        Some(s.take(s.len() - suffix.len()))
    } else {
        None
    }
}

/// The first of `parts` that begins with `prefix`.
pub open spec fn first_with(parts: Seq<Seq<char>>, prefix: Seq<char>) -> Option<Seq<char>>
    decreases parts.len(),
{
    if parts.len() == 0 {
        None
    } else if begins(parts[0], prefix) {
        Some(parts[0])
    } else {
        first_with(parts.drop_first(), prefix)
    }
}

/// What follows `prefix` in the first of `parts` that begins with it.
pub open spec fn first_after(parts: Seq<Seq<char>>, prefix: Seq<char>) -> Option<Seq<char>> {
    match first_with(parts, prefix) {
        Some(part) => Some(part.skip(prefix.len() as int)),
        None => None,
    }
}

/// What `span` is: everything before it satisfies `p`, what stands at it does
/// not.
pub proof fn lemma_span(s: Seq<char>, p: spec_fn(char) -> bool)
    ensures
        0 <= span(s, p) <= s.len(),
        forall|i: int| 0 <= i < span(s, p) ==> p(#[trigger] s[i]),
        span(s, p) < s.len() ==> !p(s[span(s, p)]),
    decreases s.len(),
{
    if s.len() > 0 && p(s[0]) {
        let t = s.drop_first();
        lemma_span(t, p);
        assert forall|i: int| 0 <= i < span(s, p) implies p(#[trigger] s[i]) by {
            if i > 0 {
                assert(s[i] == t[i - 1]);
            }
        }
    }
}

/// `span` is the only length with the two properties of `lemma_span`.
pub proof fn lemma_span_is(s: Seq<char>, p: spec_fn(char) -> bool, n: int)
    requires
        0 <= n <= s.len(),
        forall|i: int| 0 <= i < n ==> p(#[trigger] s[i]),
        n < s.len() ==> !p(s[n]),
    ensures
        span(s, p) == n,
{
    lemma_span(s, p);
    let k = span(s, p);
    if k < n {
        assert(p(s[k]));
    } else if n < k {
        assert(p(s[n]));
    }
}

/// A line that ends in a newline is followed by the lines of the rest.
pub proof fn lemma_line(line: Seq<char>, rest: Seq<char>)
    requires
        !line.contains('\n'),
        line.len() > 0 ==> line.last() != '\r',
    ensures
        lines_of(line + seq!['\n'] + rest) == seq![line] + lines_of(rest),
{
    let s = line + seq!['\n'] + rest;
    let n = line.len() as int;
    assert forall|i: int| 0 <= i < n implies but('\n')(#[trigger] s[i]) by {
        assert(s[i] == line[i]);
        assert(line.contains(line[i]));
    }
    assert(s[n] == '\n');
    lemma_span_is(s, but('\n'), n);
    assert(s.take(n) == line);
    assert(s.skip(n + 1) == rest);
}

/// The lines of two texts put together are those of the first, then those of the
/// second, where the first ends in a newline.
pub proof fn lemma_lines_concat(a: Seq<char>, b: Seq<char>)
    requires
        a.len() > 0 ==> a.last() == '\n',
    ensures
        lines_of(a + b) == lines_of(a) + lines_of(b),
    decreases a.len(),
{
    if a.len() == 0 {
        assert(a + b == b);
        assert(lines_of(a) + lines_of(b) == lines_of(b));
    } else {
        lemma_span(a, but('\n'));
        let n = span(a, but('\n'));
        assert(n < a.len()) by {
            if n == a.len() {
                assert(but('\n')(a[a.len() - 1]));
            }
        }
        let s = a + b;
        assert forall|i: int| 0 <= i < n implies but('\n')(#[trigger] s[i]) by {
            assert(s[i] == a[i]);
        }
        assert(s[n] == a[n]);
        lemma_span_is(s, but('\n'), n);
        let rest = a.skip(n + 1);
        assert(s.take(n) == a.take(n));
        assert(s.skip(n + 1) == rest + b);
        if rest.len() > 0 {
            assert(rest.last() == a.last());
        }
        lemma_lines_concat(rest, b);
        let first = seq![line_body(a.take(n), true)];
        assert(first + (lines_of(rest) + lines_of(b)) == (first + lines_of(rest)) + lines_of(b));
    }
}

/// What the first parts do not have is looked for in the others.
pub proof fn lemma_first_with_concat(
    a: Seq<Seq<char>>,
    b: Seq<Seq<char>>,
    prefix: Seq<char>,
)
    requires
        first_with(a, prefix) is None,
    ensures
        first_with(a + b, prefix) == first_with(b, prefix),
    decreases a.len(),
{
    if a.len() == 0 {
        assert(a + b == b);
    } else {
        assert((a + b)[0] == a[0]);
        assert((a + b).drop_first() == a.drop_first() + b);
        lemma_first_with_concat(a.drop_first(), b, prefix);
    }
}

/// Trimming leaves a text alone that neither begins nor ends in whitespace.
pub proof fn lemma_trim_solid(s: Seq<char>)
    requires
        s.len() > 0,
        !is_white(s[0]),
        !is_white(s.last()),
    ensures
        trim_of(s) == s,
{
    lemma_span_is(s, white(), 0);
    assert(s.skip(0) == s);
}

/// Trimming takes away the whitespace around what it leaves alone.
pub proof fn lemma_trim(lead: Seq<char>, s: Seq<char>, trail: Seq<char>)
    requires
        forall|i: int| 0 <= i < lead.len() ==> is_white(#[trigger] lead[i]),
        forall|i: int| 0 <= i < trail.len() ==> is_white(#[trigger] trail[i]),
        s.len() > 0,
        !is_white(s[0]),
        !is_white(s.last()),
    ensures
        trim_of(lead + s + trail) == s,
{
    let t = lead + s + trail;
    let n = lead.len() as int;
    assert forall|i: int| 0 <= i < n implies white()(#[trigger] t[i]) by {
        assert(t[i] == lead[i]);
    }
    assert(t[n] == s[0]);
    lemma_span_is(t, white(), n);
    assert(t.skip(n) == s + trail);
    lemma_trim_end(s, trail);
}

proof fn lemma_trim_end(s: Seq<char>, trail: Seq<char>)
    requires
        forall|i: int| 0 <= i < trail.len() ==> is_white(#[trigger] trail[i]),
        s.len() > 0,
        !is_white(s.last()),
    ensures
        trim_end_of(s + trail) == s,
    decreases trail.len(),
{
    if trail.len() == 0 {
        assert(s + trail == s);
    } else {
        let n = trail.len() - 1;
        assert((s + trail).last() == trail[n]);
        assert((s + trail).drop_last() == s + trail.drop_last());
        assert forall|i: int| 0 <= i < trail.drop_last().len() implies is_white(
            #[trigger] trail.drop_last()[i],
        ) by {
            assert(is_white(trail[i]));
        }
        lemma_trim_end(s, trail.drop_last());
    }
}

/// The first word stands between the whitespace before it and that behind it.
pub proof fn lemma_first_word(lead: Seq<char>, word: Seq<char>, rest: Seq<char>)
    requires
        forall|i: int| 0 <= i < lead.len() ==> is_white(#[trigger] lead[i]),
        word.len() > 0,
        forall|i: int| 0 <= i < word.len() ==> !is_white(#[trigger] word[i]),
        rest.len() > 0 ==> is_white(rest[0]),
    ensures
        words_of(lead + word + rest) == seq![word] + words_of(rest),
{
    let s = lead + word + rest;
    let n = lead.len() as int;
    assert forall|i: int| 0 <= i < n implies white()(#[trigger] s[i]) by {
        assert(s[i] == lead[i]);
    }
    assert(s[n] == word[0]);
    lemma_span_is(s, white(), n);
    let t = s.skip(n);
    let k = word.len() as int;
    assert forall|i: int| 0 <= i < k implies solid()(#[trigger] t[i]) by {
        assert(t[i] == word[i]);
    }
    if rest.len() > 0 {
        assert(t[k] == rest[0]);
    }
    lemma_span_is(t, solid(), k);
    assert(t.take(k) == word);
    assert(t.skip(k) == rest);
}

/// The words of two texts put together are those of the first, then those of the
/// second, where whitespace begins the second.
pub proof fn lemma_words_concat(a: Seq<char>, b: Seq<char>)
    requires
        b.len() > 0 ==> is_white(b[0]),
    ensures
        words_of(a + b) == words_of(a) + words_of(b),
    decreases a.len(),
{
    lemma_span(a, white());
    let n = span(a, white());
    let s = a + b;
    if n == a.len() {
        assert(a.skip(n).len() == 0);
        assert(words_of(a) =~= Seq::empty());
        lemma_white_lead(a, b);
        assert(words_of(a) + words_of(b) =~= words_of(b));
    } else {
        let lead = a.take(n);
        let t = a.skip(n);
        lemma_span(t, solid());
        let k = span(t, solid());
        assert(t[0] == a[n]);
        assert(k > 0);
        let word = t.take(k);
        let rest = t.skip(k);
        assert forall|i: int| 0 <= i < word.len() implies !is_white(#[trigger] word[i]) by {
            assert(solid()(t[i]));
        }
        assert forall|i: int| 0 <= i < lead.len() implies is_white(#[trigger] lead[i]) by {
            assert(white()(a[i]));
        }
        if rest.len() > 0 {
            assert(rest[0] == t[k]);
        }
        assert(a =~= lead + word + rest);
        lemma_first_word(lead, word, rest);
        assert(s =~= lead + word + (rest + b));
        if (rest + b).len() > 0 {
            assert((rest + b)[0] == if rest.len() > 0 {
                rest[0]
            } else {
                b[0]
            });
        }
        lemma_first_word(lead, word, rest + b);
        lemma_words_concat(rest, b);
        assert(seq![word] + (words_of(rest) + words_of(b)) =~= (seq![word] + words_of(rest))
            + words_of(b));
    }
}

/// Whitespace in front adds no word.
proof fn lemma_white_lead(lead: Seq<char>, s: Seq<char>)
    requires
        span(lead, white()) == lead.len(),
    ensures
        words_of(lead + s) == words_of(s),
{
    lemma_span(lead, white());
    lemma_span(s, white());
    let t = lead + s;
    let n = span(s, white());
    let k = lead.len() + n;
    assert forall|i: int| 0 <= i < k implies white()(#[trigger] t[i]) by {
        if i < lead.len() {
            assert(t[i] == lead[i]);
        } else {
            assert(t[i] == s[i - lead.len()]);
        }
    }
    if k < t.len() {
        assert(t[k] == s[n]);
    }
    lemma_span_is(t, white(), k);
    assert(t.skip(k) =~= s.skip(n));
}

/// A word alone is one word.
pub proof fn lemma_words_one(word: Seq<char>)
    requires
        word.len() > 0,
        forall|i: int| 0 <= i < word.len() ==> !is_white(#[trigger] word[i]),
    ensures
        words_of(word) == seq![word],
{
    let nothing = Seq::<char>::empty();
    lemma_first_word(nothing, word, nothing);
    assert(nothing + word + nothing =~= word);
    assert(nothing.skip(span(nothing, white())).len() == 0);
    assert(words_of(nothing) =~= Seq::empty());
}

/// A word with a space behind it is followed by the words of the rest.
pub proof fn lemma_words_cons(word: Seq<char>, rest: Seq<char>)
    requires
        word.len() > 0,
        forall|i: int| 0 <= i < word.len() ==> !is_white(#[trigger] word[i]),
    ensures
        words_of(word + seq![' '] + rest) == seq![word] + words_of(rest),
{
    let nothing = Seq::<char>::empty();
    let space = seq![' '];
    lemma_first_word(nothing, word, space + rest);
    assert(nothing + word + (space + rest) =~= word + space + rest);
    lemma_span_is(space, white(), 1);
    lemma_white_lead(space, rest);
}

/// A text cannot begin with two prefixes that differ at a character both have.
pub proof fn lemma_begins_once(s: Seq<char>, p: Seq<char>, q: Seq<char>, i: int)
    requires
        begins(s, p),
        0 <= i < p.len(),
        i < q.len(),
        p[i] != q[i],
    ensures
        !begins(s, q),
{
    if begins(s, q) {
        assert(s.take(p.len() as int)[i] == s[i]);
        assert(s.take(q.len() as int)[i] == s[i]);
    }
}

/// What holds no separator is one part.
pub proof fn lemma_split_one(s: Seq<char>, sep: char)
    requires
        !s.contains(sep),
    ensures
        split_of(s, sep) == seq![s],
{
    assert forall|i: int| 0 <= i < s.len() implies but(sep)(#[trigger] s[i]) by {
        assert(s.contains(s[i]));
    }
    lemma_span_is(s, but(sep), s.len() as int);
}

/// What stands before the first separator is the first part.
pub proof fn lemma_split_first(a: Seq<char>, sep: char, b: Seq<char>)
    requires
        !a.contains(sep),
    ensures
        split_of(a + seq![sep] + b, sep) == seq![a] + split_of(b, sep),
{
    let s = a + seq![sep] + b;
    let n = a.len() as int;
    assert forall|i: int| 0 <= i < n implies but(sep)(#[trigger] s[i]) by {
        assert(s[i] == a[i]);
        assert(a.contains(a[i]));
    }
    assert(s[n] == sep);
    lemma_span_is(s, but(sep), n);
    assert(s.take(n) == a);
    assert(s.skip(n + 1) == b);
}

/// What stands after the last separator is the last part.
pub proof fn lemma_split_last(a: Seq<char>, sep: char, b: Seq<char>)
    requires
        !b.contains(sep),
    ensures
        split_of(a + seq![sep] + b, sep) == split_of(a, sep).push(b),
    decreases a.len(),
{
    lemma_span(a, but(sep));
    let n = span(a, but(sep));
    if n < a.len() {
        let first = a.take(n);
        let rest = a.skip(n + 1);
        assert(!first.contains(sep)) by {
            if first.contains(sep) {
                let i = choose|i: int| 0 <= i < first.len() && first[i] == sep;
                assert(but(sep)(a[i]));
            }
        }
        lemma_split_last(rest, sep, b);
        lemma_split_first(first, sep, rest + seq![sep] + b);
        assert(a[n] == sep);
        assert(first + seq![sep] + (rest + seq![sep] + b) == a + seq![sep] + b);
        assert(seq![first] + split_of(rest, sep).push(b) == (seq![first] + split_of(
            rest,
            sep,
        )).push(b));
    } else {
        assert(!a.contains(sep)) by {
            if a.contains(sep) {
                let i = choose|i: int| 0 <= i < a.len() && a[i] == sep;
                assert(but(sep)(a[i]));
            }
        }
        lemma_split_first(a, sep, b);
        lemma_split_one(b, sep);
        assert(seq![a] + seq![b] == seq![a].push(b));
    }
}

/// What `first_with` finds begins with the prefix, and nothing before it does.
pub proof fn lemma_first_with(parts: Seq<Seq<char>>, prefix: Seq<char>)
    ensures
        match first_with(parts, prefix) {
            Some(part) => exists|i: int|
                #![trigger parts[i]]
                0 <= i < parts.len() && parts[i] == part && begins(part, prefix) && forall|j: int|
                    0 <= j < i ==> !begins(#[trigger] parts[j], prefix),
            None => forall|j: int| 0 <= j < parts.len() ==> !begins(#[trigger] parts[j], prefix),
        },
    decreases parts.len(),
{
    if parts.len() > 0 {
        let tail = parts.drop_first();
        lemma_first_with(tail, prefix);
        if begins(parts[0], prefix) {
            assert(parts[0] == parts[0]);
        } else {
            match first_with(tail, prefix) {
                Some(part) => {
                    let i = choose|i: int|
                        #![trigger tail[i]]
                        0 <= i < tail.len() && tail[i] == part && begins(part, prefix)
                            && forall|j: int| 0 <= j < i ==> !begins(#[trigger] tail[j], prefix);
                    assert(parts[i + 1] == part);
                    assert forall|j: int| 0 <= j < i + 1 implies !begins(
                        #[trigger] parts[j],
                        prefix,
                    ) by {
                        if j > 0 {
                            assert(parts[j] == tail[j - 1]);
                        }
                    }
                },
                None => {
                    assert forall|j: int| 0 <= j < parts.len() implies !begins(
                        #[trigger] parts[j],
                        prefix,
                    ) by {
                        if j > 0 {
                            assert(parts[j] == tail[j - 1]);
                        }
                    }
                },
            }
        }
    }
}

/// The characters of a string, in order.
pub fn char_vec(s: &str) -> (v: Vec<char>)
    ensures
        v@ == s@,
{
    let mut v: Vec<char> = Vec::new();
    for c in it: s.chars()
        invariant
            it.seq() == s@,
            v@ == s@.take(it.index()),
    {
        v.push(c);
    }
    v
}

/// The characters of each string of a list.
pub open spec fn views(v: Seq<&str>) -> Seq<Seq<char>> {
    Seq::new(v.len(), |i: int| v[i]@)
}

/// Whether `c` is whitespace.
fn white_char(c: char) -> (r: bool)
    ensures
        r == is_white(c),
{
    let n: u32 = c as u32;
    (0x09 <= n && n <= 0x0d) || n == 0x20 || n == 0x85 || n == 0xa0 || n == 0x1680 || (0x2000 <= n
        && n <= 0x200a) || n == 0x2028 || n == 0x2029 || n == 0x202f || n == 0x205f || n == 0x3000
}

/// Where the run of whitespace that starts at `from` ends.
fn white_end(v: &Vec<char>, from: usize) -> (k: usize)
    requires
        from <= v@.len(),
    ensures
        from <= k <= v@.len(),
        k - from == span(v@.skip(from as int), white()),
{
    let mut k: usize = from;
    while k < v.len() && white_char(v[k])
        invariant
            from <= k <= v@.len(),
            forall|j: int| from <= j < k ==> is_white(#[trigger] v@[j]),
        decreases v@.len() - k,
    {
        k = k + 1;
    }
    proof {
        lemma_span_is(v@.skip(from as int), white(), k - from);
    }
    k
}

/// Where the run of characters other than whitespace that starts at `from`
/// ends.
fn solid_end(v: &Vec<char>, from: usize) -> (k: usize)
    requires
        from <= v@.len(),
    ensures
        from <= k <= v@.len(),
        k - from == span(v@.skip(from as int), solid()),
{
    let mut k: usize = from;
    while k < v.len() && !white_char(v[k])
        invariant
            from <= k <= v@.len(),
            forall|j: int| from <= j < k ==> !is_white(#[trigger] v@[j]),
        decreases v@.len() - k,
    {
        k = k + 1;
    }
    proof {
        lemma_span_is(v@.skip(from as int), solid(), k - from);
    }
    k
}

/// Where `stop` first stands at or after `from`; the length if it does not.
fn char_at_or_after(v: &Vec<char>, from: usize, stop: char) -> (k: usize)
    requires
        from <= v@.len(),
    ensures
        from <= k <= v@.len(),
        k - from == span(v@.skip(from as int), but(stop)),
        k < v@.len() ==> v@[k as int] == stop,
{
    let mut k: usize = from;
    while k < v.len() && v[k] != stop
        invariant
            from <= k <= v@.len(),
            forall|j: int| from <= j < k ==> #[trigger] v@[j] != stop,
        decreases v@.len() - k,
    {
        k = k + 1;
    }
    proof {
        lemma_span_is(v@.skip(from as int), but(stop), k - from);
    }
    k
}

/// The lines of `text`, without their endings.
pub fn lines<'a>(text: &'a str) -> (out: Vec<&'a str>)
    ensures
        views(out@) == lines_of(text@),
{
    let chars = char_vec(text);
    let total: usize = chars.len();
    let mut out: Vec<&'a str> = Vec::new();
    let mut i: usize = 0;
    assert(text@.skip(0) == text@);
    while i < total
        invariant
            i <= total,
            total == chars@.len(),
            chars@ == text@,
            views(out@) + lines_of(text@.skip(i as int)) == lines_of(text@),
        decreases total - i,
    {
        let n: usize = char_at_or_after(&chars, i, '\n');
        let ended = n < total;
        let stop: usize = if ended && n > i && chars[n - 1] == '\r' {
            n - 1
        } else {
            n
        };
        let line = text.substring_char(i, stop);
        let next: usize = if ended {
            n + 1
        } else {
            total
        };
        proof {
            let s = text@.skip(i as int);
            assert(s.take(n - i) == text@.subrange(i as int, n as int));
            assert(line@ == line_body(s.take(n - i), ended));
            if ended {
                assert(s.skip(n - i + 1) == text@.skip(next as int));
                assert(lines_of(s) == seq![line@] + lines_of(text@.skip(next as int)));
            } else {
                assert(s.take(n - i) == s);
                assert(text@.skip(next as int).len() == 0);
                assert(lines_of(s) == seq![line@] + lines_of(text@.skip(next as int)));
            }
            assert(views(out@.push(line)) == views(out@) + seq![line@]);
            assert(views(out@) + (seq![line@] + lines_of(text@.skip(next as int))) == views(
                out@.push(line),
            ) + lines_of(text@.skip(next as int)));
        }
        out.push(line);
        i = next;
    }
    assert(lines_of(text@.skip(i as int)) == Seq::<Seq<char>>::empty());
    assert(views(out@) + Seq::<Seq<char>>::empty() == views(out@));
    out
}

/// The parts of `text` between the characters `sep`.
pub fn split<'a>(text: &'a str, sep: char) -> (out: Vec<&'a str>)
    ensures
        views(out@) == split_of(text@, sep),
{
    let chars = char_vec(text);
    let total: usize = chars.len();
    let mut out: Vec<&'a str> = Vec::new();
    let mut i: usize = 0;
    let mut stop: usize = char_at_or_after(&chars, 0, sep);
    assert(text@.skip(0) == text@);
    assert(views(out@) + split_of(text@, sep) == split_of(text@, sep));
    while stop < total
        invariant
            i <= stop <= total,
            total == chars@.len(),
            chars@ == text@,
            stop - i == span(text@.skip(i as int), but(sep)),
            views(out@) + split_of(text@.skip(i as int), sep) == split_of(text@, sep),
        decreases total - stop,
    {
        let part = text.substring_char(i, stop);
        proof {
            let s = text@.skip(i as int);
            assert(s.take(stop - i) == part@);
            assert(s.skip(stop - i + 1) == text@.skip(stop + 1));
            assert(split_of(s, sep) == seq![part@] + split_of(text@.skip(stop + 1), sep));
            assert(views(out@.push(part)) == views(out@) + seq![part@]);
            assert(views(out@) + (seq![part@] + split_of(text@.skip(stop + 1), sep)) == views(
                out@.push(part),
            ) + split_of(text@.skip(stop + 1), sep));
        }
        out.push(part);
        i = stop + 1;
        stop = char_at_or_after(&chars, i, sep);
    }
    let part = text.substring_char(i, total);
    proof {
        let s = text@.skip(i as int);
        assert(s == part@);
        assert(split_of(s, sep) == seq![part@]);
        assert(views(out@.push(part)) == views(out@) + seq![part@]);
    }
    out.push(part);
    out
}

/// The words of `text`: its maximal runs of characters that are not
/// whitespace.
pub fn words<'a>(text: &'a str) -> (out: Vec<&'a str>)
    ensures
        views(out@) == words_of(text@),
{
    let chars = char_vec(text);
    let total: usize = chars.len();
    let mut out: Vec<&'a str> = Vec::new();
    let mut i: usize = 0;
    assert(text@.skip(0) == text@);
    while i < total
        invariant
            i <= total,
            total == chars@.len(),
            chars@ == text@,
            views(out@) + words_of(text@.skip(i as int)) == words_of(text@),
        decreases total - i,
    {
        let start: usize = white_end(&chars, i);
        let stop: usize = solid_end(&chars, start);
        proof {
            let s = text@.skip(i as int);
            assert(s.skip(start - i) == text@.skip(start as int));
            lemma_span(text@.skip(start as int), white());
            lemma_span(s, white());
        }
        if start < total {
            let word = text.substring_char(start, stop);
            proof {
                let s = text@.skip(i as int);
                let rest = text@.skip(start as int);
                assert(!is_white(s[start - i]));
                assert(rest[0] == s[start - i]);
                lemma_span(rest, solid());
                assert(rest.take(stop - start) == word@);
                assert(rest.skip(stop - start) == text@.skip(stop as int));
                assert(words_of(s) == seq![word@] + words_of(text@.skip(stop as int)));
                assert(views(out@.push(word)) == views(out@) + seq![word@]);
                assert(views(out@) + (seq![word@] + words_of(text@.skip(stop as int))) == views(
                    out@.push(word),
                ) + words_of(text@.skip(stop as int)));
            }
            out.push(word);
            i = stop;
        } else {
            proof {
                assert(text@.skip(total as int).len() == 0);
                assert(words_of(text@.skip(i as int)) == words_of(text@.skip(total as int)));
            }
            i = total;
        }
    }
    assert(text@.skip(total as int).len() == 0);
    assert(words_of(text@.skip(i as int)) == Seq::<Seq<char>>::empty());
    assert(views(out@) + Seq::<Seq<char>>::empty() == views(out@));
    out
}

/// `text` without the whitespace it begins and ends in.
pub fn trim<'a>(text: &'a str) -> (r: &'a str)
    ensures
        r@ == trim_of(text@),
{
    let chars = char_vec(text);
    let start: usize = white_end(&chars, 0);
    let mut stop: usize = chars.len();
    proof {
        assert(text@.skip(0) == text@);
        assert(text@.skip(start as int) == text@.subrange(start as int, stop as int));
    }
    while stop > start && white_char(chars[stop - 1])
        invariant
            start <= stop <= chars@.len(),
            chars@ == text@,
            trim_end_of(text@.subrange(start as int, stop as int)) == trim_of(text@),
        decreases stop,
    {
        proof {
            assert(text@.subrange(start as int, stop as int).drop_last() == text@.subrange(
                start as int,
                stop - 1,
            ));
        }
        stop = stop - 1;
    }
    text.substring_char(start, stop)
}

/// Whether two strings hold the same characters.
pub fn same(a: &str, b: &str) -> (r: bool)
    ensures
        r == (a@ == b@),
{
    let x = char_vec(a);
    let y = char_vec(b);
    if x.len() != y.len() {
        return false;
    }
    let mut i: usize = 0;
    while i < x.len()
        invariant
            i <= x@.len(),
            x@.len() == y@.len(),
            x@ == a@,
            y@ == b@,
            forall|j: int| 0 <= j < i ==> x@[j] == y@[j],
        decreases x@.len() - i,
    {
        if x[i] != y[i] {
            assert(a@[i as int] != b@[i as int]);
            return false;
        }
        i = i + 1;
    }
    assert(a@ =~= b@);
    true
}

/// What follows `prefix` in `text`, where `text` begins with it.
pub fn strip_prefix<'a>(text: &'a str, prefix: &str) -> (r: Option<&'a str>)
    ensures
        match r {
            Some(rest) => after(text@, prefix@) == Some(rest@),
            None => after(text@, prefix@) is None,
        },
{
    let total: usize = text.unicode_len();
    let n: usize = prefix.unicode_len();
    if n <= total && same(text.substring_char(0, n), prefix) {
        proof {
            assert(text@.subrange(n as int, total as int) == text@.skip(n as int));
        }
        Some(text.substring_char(n, total))
    } else {
        None
    }
}

/// What precedes `suffix` in `text`, where `text` ends with it.
pub fn strip_suffix<'a>(text: &'a str, suffix: &str) -> (r: Option<&'a str>)
    ensures
        match r {
            Some(rest) => before(text@, suffix@) == Some(rest@),
            None => before(text@, suffix@) is None,
        },
{
    let total: usize = text.unicode_len();
    let n: usize = suffix.unicode_len();
    if n <= total && same(text.substring_char(total - n, total), suffix) {
        Some(text.substring_char(0, total - n))
    } else {
        None
    }
}

/// The first of `parts` that begins with `prefix`.
pub fn find_with<'a>(parts: &Vec<&'a str>, prefix: &str) -> (r: Option<&'a str>)
    ensures
        match r {
            Some(part) => first_with(views(parts@), prefix@) == Some(part@),
            None => first_with(views(parts@), prefix@) is None,
        },
{
    let mut i: usize = 0;
    assert(views(parts@).skip(0) == views(parts@));
    while i < parts.len()
        invariant
            i <= parts@.len(),
            first_with(views(parts@).skip(i as int), prefix@) == first_with(
                views(parts@),
                prefix@,
            ),
        decreases parts@.len() - i,
    {
        let part = parts[i];
        assert(views(parts@).skip(i as int)[0] == part@);
        assert(views(parts@).skip(i as int).drop_first() == views(parts@).skip(i + 1));
        if strip_prefix(part, prefix).is_some() {
            return Some(part);
        }
        i = i + 1;
    }
    None
}

/// What follows `prefix` in the first of `parts` that begins with it.
pub fn find_after<'a>(parts: &Vec<&'a str>, prefix: &str) -> (r: Option<&'a str>)
    ensures
        match r {
            Some(rest) => first_after(views(parts@), prefix@) == Some(rest@),
            None => first_after(views(parts@), prefix@) is None,
        },
{
    proof {
        lemma_first_with(views(parts@), prefix@);
    }
    match find_with(parts, prefix) {
        Some(part) => strip_prefix(part, prefix),
        None => None,
    }
}

/// Lines are what newlines end: a text without one is a line of its own, unless it
/// is empty, and a newline ends the line before it, with one carriage return
/// directly before the newline left out.
pub proof fn law_newlines_end_lines(line: Seq<char>, rest: Seq<char>)
    requires
        !line.contains('\n'),
    ensures
        lines_of(Seq::<char>::empty()) == Seq::<Seq<char>>::empty(),
        line.len() > 0 ==> lines_of(line) == seq![line],
        line.len() > 0 && line.last() == '\r' ==> lines_of(line + seq!['\n'] + rest) == seq![
            line.drop_last(),
        ] + lines_of(rest),
        line.len() == 0 || line.last() != '\r' ==> lines_of(line + seq!['\n'] + rest) == seq![line]
            + lines_of(rest),
{
    assert(lines_of(Seq::<char>::empty()) =~= Seq::empty());
    assert forall|i: int| 0 <= i < line.len() implies but('\n')(#[trigger] line[i]) by {
        assert(line.contains(line[i]));
    }
    lemma_span_is(line, but('\n'), line.len() as int);
    if line.len() > 0 {
        assert(lines_of(line) =~= seq![line]);
    }
    let s = line + seq!['\n'] + rest;
    let n = line.len() as int;
    assert forall|i: int| 0 <= i < n implies but('\n')(#[trigger] s[i]) by {
        assert(s[i] == line[i]);
        assert(but('\n')(line[i]));
    }
    assert(s[n] == '\n');
    lemma_span_is(s, but('\n'), n);
    assert(s.take(n) =~= line);
    assert(s.skip(n + 1) =~= rest);
}

/// Words are what whitespace separates: a text without whitespace is a word of its
/// own, unless it is empty, and whitespace parts what stands before it from what
/// stands behind it and is in no word.
pub proof fn law_whitespace_separates_words(a: Seq<char>, gap: char, b: Seq<char>)
    requires
        is_white(gap),
    ensures
        words_of(Seq::<char>::empty()) == Seq::<Seq<char>>::empty(),
        a.len() > 0 && (forall|i: int| 0 <= i < a.len() ==> !is_white(#[trigger] a[i])) ==> words_of(
            a,
        ) == seq![a],
        words_of(a + seq![gap] + b) == words_of(a) + words_of(b),
{
    let nothing = Seq::<char>::empty();
    assert(nothing.skip(span(nothing, white())).len() == 0);
    assert(words_of(nothing) =~= Seq::empty());
    if a.len() > 0 && (forall|i: int| 0 <= i < a.len() ==> !is_white(#[trigger] a[i])) {
        lemma_words_one(a);
    }
    let one = seq![gap];
    lemma_words_concat(a, one + b);
    assert(a + (one + b) =~= a + one + b);
    lemma_span_is(one, white(), 1);
    lemma_white_lead(one, b);
}

/// Parts are what separators part: a text without one is a part of its own, and a
/// separator parts what stands before it from what stands behind it.
pub proof fn law_separators_part(a: Seq<char>, sep: char, b: Seq<char>)
    ensures
        !a.contains(sep) ==> split_of(a, sep) == seq![a],
        !a.contains(sep) ==> split_of(a + seq![sep] + b, sep) == seq![a] + split_of(b, sep),
{
    if !a.contains(sep) {
        lemma_split_one(a, sep);
        lemma_split_first(a, sep, b);
    }
}

/// Trimming leaves what stands between the first and the last character that is
/// not whitespace, and nothing where there is none.
pub proof fn law_trimming_strips_the_ends(lead: Seq<char>, s: Seq<char>, trail: Seq<char>)
    requires
        forall|i: int| 0 <= i < lead.len() ==> is_white(#[trigger] lead[i]),
        forall|i: int| 0 <= i < trail.len() ==> is_white(#[trigger] trail[i]),
    ensures
        trim_of(lead) == Seq::<char>::empty(),
        s.len() > 0 && !is_white(s[0]) && !is_white(s.last()) ==> trim_of(lead + s + trail) == s,
{
    assert forall|i: int| 0 <= i < lead.len() implies white()(#[trigger] lead[i]) by {
    }
    lemma_span_is(lead, white(), lead.len() as int);
    assert(lead.skip(lead.len() as int) =~= Seq::empty());
    if s.len() > 0 && !is_white(s[0]) && !is_white(s.last()) {
        lemma_trim(lead, s, trail);
    }
}

/// A text begins with a prefix exactly where it is the prefix and something behind
/// it, and that something is what follows the prefix; likewise at the end.
pub proof fn law_prefixes_and_suffixes(s: Seq<char>, p: Seq<char>, rest: Seq<char>)
    ensures
        after(p + rest, p) == Some(rest),
        before(rest + p, p) == Some(rest),
        begins(p + rest, p),
        ends(rest + p, p),
        after(s, p) matches Some(r) ==> s == p + r,
        before(s, p) matches Some(r) ==> s == r + p,
        begins(s, p) <==> after(s, p) is Some,
        ends(s, p) <==> before(s, p) is Some,
{
    let t = p + rest;
    assert(t.take(p.len() as int) =~= p);
    assert(t.skip(p.len() as int) =~= rest);
    let u = rest + p;
    assert(u.skip(u.len() - p.len()) =~= p);
    assert(u.take(u.len() - p.len()) =~= rest);
    if begins(s, p) {
        assert(s =~= p + s.skip(p.len() as int));
    }
    if ends(s, p) {
        assert(s =~= s.take(s.len() - p.len()) + p);
    }
}

/// Looking for a prefix gives the first part that has it, and what stands behind it
/// there; it gives nothing exactly where no part has it.
pub proof fn law_the_first_part_with_a_prefix(
    head: Seq<Seq<char>>,
    prefix: Seq<char>,
    rest: Seq<char>,
    tail: Seq<Seq<char>>,
)
    requires
        forall|i: int, r: Seq<char>| 0 <= i < head.len() ==> #[trigger] head[i] != #[trigger] (prefix
            + r),
    ensures
        first_with(head, prefix) is None,
        first_after(head, prefix) is None,
        first_with(head + seq![prefix + rest] + tail, prefix) == Some(prefix + rest),
        first_after(head + seq![prefix + rest] + tail, prefix) == Some(rest),
{
    lemma_first_with(head, prefix);
    match first_with(head, prefix) {
        Some(part) => {
            let i = choose|i: int|
                #![trigger head[i]]
                0 <= i < head.len() && head[i] == part && begins(part, prefix) && forall|j: int|
                    0 <= j < i ==> !begins(#[trigger] head[j], prefix);
            law_prefixes_and_suffixes(part, prefix, rest);
            assert(head[i] == prefix + part.skip(prefix.len() as int));
        },
        None => {},
    }
    law_prefixes_and_suffixes(prefix + rest, prefix, rest);
    let own = seq![prefix + rest] + tail;
    assert(own[0] == prefix + rest);
    lemma_first_with_concat(head, own, prefix);
    assert(head + own =~= head + seq![prefix + rest] + tail);
}

/// The characters of a list of strings are those of each string, in order.
pub proof fn law_views_are_the_characters(v: Seq<&str>)
    ensures
        views(v).len() == v.len(),
        forall|i: int| 0 <= i < v.len() ==> #[trigger] views(v)[i] == v[i]@,
{
}

} // verus!
