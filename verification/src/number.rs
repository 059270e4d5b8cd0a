//! Numbers as the kernel writes them: unsigned decimal integers, and decimal
//! fractions kept as the text that denotes them.
use vstd::prelude::*;

use crate::text::{char_vec, is_white, lemma_span, span};

verus! {

broadcast use vstd::string::group_string_axioms;

/// Whether `c` is one of the ten ASCII digits.
pub open spec fn is_digit(c: char) -> bool {
    '0' <= c <= '9'
}

/// The ASCII digits.
pub open spec fn digit() -> spec_fn(char) -> bool {
    |c: char| is_digit(c)
}

/// Whether every character of `s` is an ASCII digit.
pub open spec fn all_digits(s: Seq<char>) -> bool {
    forall|i: int| 0 <= i < s.len() ==> is_digit(#[trigger] s[i])
}

/// The number that a sequence of digits denotes in base ten.
pub open spec fn digits_value(s: Seq<char>) -> int
    decreases s.len(),
{
    if s.len() == 0 {
        0
    } else {
        10 * digits_value(s.drop_last()) + (s.last() as int - '0' as int)
    }
}

/// `s` without one leading plus sign.
pub open spec fn unsigned_body(s: Seq<char>) -> Seq<char> {
    if s.len() > 0 && s[0] == '+' {
        s.drop_first()
    } else {
        s
    }
}

/// The unsigned integer that `s` denotes, if it is at most `max`: an optional
/// plus sign, then one digit or more, and nothing else.
pub open spec fn unsigned_of(s: Seq<char>, max: int) -> Option<int> {
    let body = unsigned_body(s);
    if body.len() > 0 && all_digits(body) && digits_value(body) <= max {
        Some(digits_value(body))
    } else {
        None
    }
}

/// The value of `s` as a 64-bit unsigned integer.
pub open spec fn u64_of(s: Seq<char>) -> Option<u64> {
    match unsigned_of(s, u64::MAX as int) {
        Some(n) => Some(n as u64),
        None => None,
    }
}

/// The value of `s` as a 32-bit unsigned integer.
pub open spec fn u32_of(s: Seq<char>) -> Option<u32> {
    match unsigned_of(s, u32::MAX as int) {
        Some(n) => Some(n as u32),
        None => None,
    }
}

/// The ASCII digit for `n` below ten.
pub open spec fn digit_char(n: int) -> char {
    ('0' as int + n) as char
}

/// `n` in at least `width` digits, with zeros in front where it has fewer.
pub open spec fn padded(n: nat, width: nat) -> Seq<char>
    decreases n, width,
{
    if n < 10 && width <= 1 {
        seq![digit_char(n as int)]
    } else {
        padded(
            n / 10,
            if width > 0 {
                (width - 1) as nat
            } else {
                0
            },
        ).push(digit_char((n % 10) as int))
    }
}

/// `n` in as many digits as it needs.
pub open spec fn decimal(n: nat) -> Seq<char> {
    padded(n, 1)
}

/// What is written in decimal denotes what was written.
pub proof fn lemma_decimal(n: nat)
    ensures
        decimal(n).len() > 0,
        all_digits(decimal(n)),
        digits_value(decimal(n)) == n,
{
    lemma_padded(n, 1);
}

/// Zeros in front change nothing of the number that is written.
pub proof fn lemma_padded(n: nat, width: nat)
    ensures
        padded(n, width).len() > 0,
        all_digits(padded(n, width)),
        digits_value(padded(n, width)) == n,
    decreases n, width,
{
    let s = padded(n, width);
    if n < 10 && width <= 1 {
        assert(s.drop_last() =~= Seq::empty());
        assert(digits_value(s.drop_last()) == 0);
        assert(s.last() as int == '0' as int + n);
    } else {
        let w = if width > 0 {
            (width - 1) as nat
        } else {
            0
        };
        lemma_padded(n / 10, w);
        let t = padded(n / 10, w);
        assert(s == t.push(digit_char((n % 10) as int)));
        assert(s.drop_last() =~= t);
        assert(s.last() as int == '0' as int + n % 10);
        assert forall|i: int| 0 <= i < s.len() implies is_digit(#[trigger] s[i]) by {
            if i < t.len() {
                assert(s[i] == t[i]);
                assert(is_digit(t[i]));
            }
        }
    }
}

/// A 64-bit number written in decimal is read back as itself.
pub proof fn law_decimal_reads_back(n: u64)
    ensures
        u64_of(decimal(n as nat)) == Some(n),
{
    lemma_decimal(n as nat);
    let s = decimal(n as nat);
    assert(is_digit(s[0]));
    assert(unsigned_body(s) == s);
}

/// The characters of a decimal number are not whitespace.
pub proof fn lemma_decimal_solid(n: nat)
    ensures
        decimal(n).len() > 0,
        forall|i: int| 0 <= i < decimal(n).len() ==> !is_white(#[trigger] decimal(n)[i]),
        !decimal(n).contains('\n'),
        decimal(n).last() != '\r',
{
    lemma_decimal(n);
    let s = decimal(n);
    assert forall|i: int| 0 <= i < s.len() implies !is_white(#[trigger] s[i]) && s[i] != '\n' by {
        assert(is_digit(s[i]));
    }
    assert(is_digit(s[s.len() - 1]));
}

/// A 32-bit number written in decimal is read back as itself.
pub proof fn law_small_decimal_reads_back(n: u32)
    ensures
        u32_of(decimal(n as nat)) == Some(n),
{
    lemma_decimal(n as nat);
    let s = decimal(n as nat);
    assert(is_digit(s[0]));
    assert(unsigned_body(s) == s);
}

/// A sequence of digits is what writing its value in as many digits gives.
proof fn lemma_digits_are_padded(s: Seq<char>)
    requires
        s.len() > 0,
        all_digits(s),
    ensures
        digits_value(s) >= 0,
        s == padded(digits_value(s) as nat, s.len()),
    decreases s.len(),
{
    let init = s.drop_last();
    let d = s.last() as int - '0' as int;
    assert(is_digit(s[s.len() - 1]));
    assert(digit_char(d) == s.last());
    if s.len() == 1 {
        assert(init =~= Seq::empty());
        assert(digits_value(init) == 0);
        assert(s =~= padded(d as nat, 1));
    } else {
        assert forall|i: int| 0 <= i < init.len() implies is_digit(#[trigger] init[i]) by {
            assert(is_digit(s[i]));
        }
        lemma_digits_are_padded(init);
        let v = digits_value(init) as nat;
        let n = digits_value(s) as nat;
        assert(n == 10 * v + d);
        assert(n / 10 == v);
        assert(n % 10 == d);
        assert(s =~= padded(v, init.len()).push(digit_char(d)));
    }
}

/// A number is read by its value, however many zeros stand in front of it and with
/// or without a plus sign, and is none where it is too large.
pub proof fn law_numbers_are_read_by_value(n: nat, width: nat)
    ensures
        u64_of(padded(n, width)) == (if n <= u64::MAX {
            Some(n as u64)
        } else {
            None
        }),
        u64_of(seq!['+'] + padded(n, width)) == u64_of(padded(n, width)),
        u32_of(padded(n, width)) == (if n <= u32::MAX {
            Some(n as u32)
        } else {
            None
        }),
        u32_of(seq!['+'] + padded(n, width)) == u32_of(padded(n, width)),
{
    lemma_padded(n, width);
    let s = padded(n, width);
    assert(is_digit(s[0]));
    assert(unsigned_body(s) == s);
    assert((seq!['+'] + s).drop_first() =~= s);
}

/// Nothing is read as a number but digits, with at most one plus sign in front.
pub proof fn law_only_digits_are_numbers(s: Seq<char>)
    ensures
        u64_of(s) matches Some(v) ==> exists|width: nat|
            s == #[trigger] padded(v as nat, width) || s == seq!['+'] + padded(v as nat, width),
        u32_of(s) matches Some(v) ==> exists|width: nat|
            s == #[trigger] padded(v as nat, width) || s == seq!['+'] + padded(v as nat, width),
{
    let body = unsigned_body(s);
    if body.len() > 0 && all_digits(body) {
        lemma_digits_are_padded(body);
        let n = digits_value(body) as nat;
        if body != s {
            assert(s =~= seq!['+'] + body);
        }
        assert(s == padded(n, body.len()) || s == seq!['+'] + padded(n, body.len()));
        match u64_of(s) {
            Some(v) => {
                assert(v as nat == n);
            },
            None => {},
        }
        match u32_of(s) {
            Some(v) => {
                assert(v as nat == n);
            },
            None => {},
        }
    }
}

/// A sequence of digits denotes at least what any of its beginnings denotes.
proof fn lemma_digits_grow(s: Seq<char>, n: int)
    requires
        all_digits(s),
        0 <= n <= s.len(),
    ensures
        0 <= digits_value(s.take(n)) <= digits_value(s),
    decreases s.len(),
{
    if n == s.len() {
        assert(s.take(n) == s);
        if n > 0 {
            let t = s.drop_last();
            assert(all_digits(t));
            lemma_digits_grow(t, n - 1);
            assert(t.take(n - 1) == t);
            assert(is_digit(s[s.len() - 1]));
        }
    } else {
        let t = s.drop_last();
        assert(all_digits(t));
        lemma_digits_grow(t, n);
        assert(t.take(n) == s.take(n));
        assert(is_digit(s[s.len() - 1]));
    }
}

/// Whether every character of `text` is an ASCII digit.
pub fn only_digits(text: &str) -> (r: bool)
    ensures
        r == all_digits(text@),
{
    let v = char_vec(text);
    let stop: usize = digits_end(&v, 0);
    proof {
        assert(v@.skip(0) == text@);
        lemma_span(text@, digit());
        if stop < v@.len() {
            assert(!is_digit(text@[stop as int]));
        }
    }
    stop == v.len()
}

/// Parse an unsigned 64-bit integer.
pub fn parse_u64(text: &str) -> (r: Option<u64>)
    ensures
        r == u64_of(text@),
{
    let chars = char_vec(text);
    let start: usize = if chars.len() > 0 && chars[0] == '+' {
        1
    } else {
        0
    };
    let ghost body = unsigned_body(text@);
    assert(body == text@.skip(start as int));
    if start == chars.len() {
        return None;
    }
    let mut i: usize = start;
    let mut value: u64 = 0;
    assert(body.take(0) == Seq::<char>::empty());
    while i < chars.len()
        invariant
            start <= i <= chars@.len(),
            start < chars@.len(),
            chars@ == text@,
            body == unsigned_body(text@),
            body == text@.skip(start as int),
            forall|j: int| 0 <= j < i - start ==> is_digit(#[trigger] body[j]),
            value == digits_value(body.take(i - start)),
        decreases chars@.len() - i,
    {
        let c = chars[i];
        assert(body[i - start] == c);
        if !('0' <= c && c <= '9') {
            return None;
        }
        let d: u64 = (c as u32 - '0' as u32) as u64;
        proof {
            let k = i - start;
            assert(body.take(k + 1).drop_last() == body.take(k));
            assert(digits_value(body.take(k + 1)) == 10 * value + d);
        }
        if value > (u64::MAX - d) / 10 {
            proof {
                if all_digits(body) {
                    lemma_digits_grow(body, i - start + 1);
                    assert(10 * value + d > u64::MAX);
                }
            }
            return None;
        }
        value = value * 10 + d;
        i = i + 1;
    }
    assert(body.take(body.len() as int) == body);
    Some(value)
}

/// Parse an unsigned 32-bit integer.
pub fn parse_u32(text: &str) -> (r: Option<u32>)
    ensures
        r == u32_of(text@),
{
    proof {
        let body = unsigned_body(text@);
        if all_digits(body) {
            lemma_digits_grow(body, 0);
        }
    }
    match parse_u64(text) {
        Some(n) => if n <= u32::MAX as u64 {
            Some(n as u32)
        } else {
            None
        },
        None => None,
    }
}

/// Whether `c` is the lower-case ASCII letter `letter`, in either case.
pub open spec fn is_letter(c: char, letter: char) -> bool {
    c == letter || ('A' <= c <= 'Z' && c as int + 32 == letter as int)
}

/// Whether `s` spells the lower-case word `word`, in any mixture of cases.
pub open spec fn spells(s: Seq<char>, word: Seq<char>) -> bool {
    s.len() == word.len() && forall|i: int|
        0 <= i < s.len() ==> is_letter(#[trigger] s[i], word[i])
}

/// `s` without one leading sign.
pub open spec fn signed_body(s: Seq<char>) -> Seq<char> {
    if s.len() > 0 && (s[0] == '+' || s[0] == '-') {
        s.drop_first()
    } else {
        s
    }
}

/// Whether `s` is empty or a decimal exponent: `e`, an optional sign, and one
/// digit or more.
pub open spec fn is_exponent(s: Seq<char>) -> bool {
    s.len() == 0 || (is_letter(s[0], 'e') && signed_body(s.drop_first()).len() > 0 && all_digits(
        signed_body(s.drop_first()),
    ))
}

/// Whether `s` is digits with at most one decimal point among or beside them,
/// then at most one exponent. At least one digit precedes the exponent.
pub open spec fn is_number(s: Seq<char>) -> bool {
    let whole = span(s, digit());
    let rest = s.skip(whole);
    if rest.len() > 0 && rest[0] == '.' {
        let fraction = span(rest.drop_first(), digit());
        whole + fraction > 0 && is_exponent(rest.drop_first().skip(fraction))
    } else {
        whole > 0 && is_exponent(rest)
    }
}

/// Whether `s` denotes a floating-point value: an optional sign, then a decimal
/// number, an infinity or a NaN.
pub open spec fn is_float(s: Seq<char>) -> bool {
    let body = signed_body(s);
    ||| spells(body, "inf"@)
    ||| spells(body, "infinity"@)
    ||| spells(body, "nan"@)
    ||| is_number(body)
}

/// A text that spells a word of ASCII letters has no whitespace in it.
proof fn lemma_spells_solid(s: Seq<char>, word: Seq<char>)
    requires
        spells(s, word),
        forall|i: int| 0 <= i < word.len() ==> 'a' <= #[trigger] word[i] <= 'z',
    ensures
        forall|i: int| 0 <= i < s.len() ==> !is_white(#[trigger] s[i]),
{
    assert forall|i: int| 0 <= i < s.len() implies !is_white(#[trigger] s[i]) by {
        assert(is_letter(s[i], word[i]));
    }
}

/// An exponent has no whitespace in it.
proof fn lemma_exponent_solid(s: Seq<char>)
    requires
        is_exponent(s),
    ensures
        forall|i: int| 0 <= i < s.len() ==> !is_white(#[trigger] s[i]),
{
    if s.len() > 0 {
        let rest = s.drop_first();
        let body = signed_body(rest);
        assert forall|i: int| 0 <= i < s.len() implies !is_white(#[trigger] s[i]) by {
            if i > 0 {
                assert(s[i] == rest[i - 1]);
                let k = i - 1 - (rest.len() - body.len());
                if k >= 0 {
                    assert(rest[i - 1] == body[k]);
                    assert(is_digit(body[k]));
                }
            }
        }
    }
}

/// A decimal number has no whitespace in it.
proof fn lemma_number_solid(s: Seq<char>)
    requires
        is_number(s),
    ensures
        s.len() > 0,
        forall|i: int| 0 <= i < s.len() ==> !is_white(#[trigger] s[i]),
{
    lemma_span(s, digit());
    let whole = span(s, digit());
    let rest = s.skip(whole);
    if rest.len() > 0 && rest[0] == '.' {
        let tail = rest.drop_first();
        lemma_span(tail, digit());
        let fraction = span(tail, digit());
        let exponent = tail.skip(fraction);
        lemma_exponent_solid(exponent);
        assert forall|i: int| 0 <= i < s.len() implies !is_white(#[trigger] s[i]) by {
            let k = i - whole - 1;
            if i < whole {
                assert(digit()(s[i]));
            } else if i == whole {
                assert(s[i] == rest[0]);
            } else if k < fraction {
                assert(s[i] == tail[k]);
                assert(digit()(tail[k]));
            } else {
                assert(s[i] == exponent[k - fraction]);
            }
        }
    } else {
        lemma_exponent_solid(rest);
        assert forall|i: int| 0 <= i < s.len() implies !is_white(#[trigger] s[i]) by {
            if i < whole {
                assert(digit()(s[i]));
            } else {
                assert(s[i] == rest[i - whole]);
            }
        }
    }
}

/// What denotes a floating-point value has no whitespace in it.
pub proof fn lemma_float_solid(s: Seq<char>)
    requires
        is_float(s),
    ensures
        s.len() > 0,
        forall|i: int| 0 <= i < s.len() ==> !is_white(#[trigger] s[i]),
{
    reveal_strlit("inf");
    reveal_strlit("infinity");
    reveal_strlit("nan");
    let body = signed_body(s);
    if spells(body, "inf"@) {
        lemma_spells_solid(body, "inf"@);
    } else if spells(body, "infinity"@) {
        lemma_spells_solid(body, "infinity"@);
    } else if spells(body, "nan"@) {
        lemma_spells_solid(body, "nan"@);
    } else {
        lemma_number_solid(body);
    }
    assert forall|i: int| 0 <= i < s.len() implies !is_white(#[trigger] s[i]) by {
        let k = i - (s.len() - body.len());
        if k >= 0 {
            assert(s[i] == body[k]);
        }
    }
}

/// The parts of a decimal number in floating-point notation.
pub struct Notation {
    pub sign: Seq<char>,
    pub whole: Seq<char>,
    pub has_point: bool,
    pub fraction: Seq<char>,
    pub exponent: Seq<char>,
}

impl Notation {
    /// Whether each part is what it is called: at least one digit in all, a
    /// fraction only behind a point, and an exponent of at least one digit.
    pub open spec fn is_sound(self) -> bool {
        &&& self.sign == Seq::<char>::empty() || self.sign == seq!['+'] || self.sign == seq!['-']
        &&& forall|i: int| 0 <= i < self.whole.len() ==> '0' <= #[trigger] self.whole[i] <= '9'
        &&& forall|i: int| 0 <= i < self.fraction.len() ==> '0' <= #[trigger] self.fraction[i] <= '9'
        &&& self.whole.len() + self.fraction.len() > 0
        &&& self.has_point || self.fraction.len() == 0
        &&& self.exponent.len() > 0 ==> {
            &&& self.exponent[0] == 'e' || self.exponent[0] == 'E'
            &&& self.exponent.len() > 1
            &&& '0' <= self.exponent.last() <= '9'
            &&& self.exponent[1] == '+' || self.exponent[1] == '-' || '0' <= self.exponent[1] <= '9'
            &&& forall|i: int|
                2 <= i < self.exponent.len() ==> '0' <= #[trigger] self.exponent[i] <= '9'
        }
    }

    /// The parts behind one another.
    pub open spec fn text(self) -> Seq<char> {
        self.sign + self.whole + (if self.has_point {
            seq!['.']
        } else {
            Seq::empty()
        }) + self.fraction + self.exponent
    }
}

/// An exponent is one by its parts.
proof fn lemma_exponent_parts(s: Seq<char>)
    ensures
        is_exponent(s) <==> (s.len() > 0 ==> {
            &&& s[0] == 'e' || s[0] == 'E'
            &&& s.len() > 1
            &&& '0' <= s.last() <= '9'
            &&& s[1] == '+' || s[1] == '-' || '0' <= s[1] <= '9'
            &&& forall|i: int| 2 <= i < s.len() ==> '0' <= #[trigger] s[i] <= '9'
        }),
{
    if s.len() > 0 {
        let rest = s.drop_first();
        let body = signed_body(rest);
        let k = s.len() - body.len();
        assert forall|i: int| 0 <= i < body.len() implies #[trigger] body[i] == s[i + k] by {
        }
        if is_exponent(s) {
            assert(is_digit(body[body.len() - 1]));
            assert(s.last() == body[body.len() - 1]);
            if k == 1 {
                assert(is_digit(body[0]));
            }
            assert forall|i: int| 2 <= i < s.len() implies '0' <= #[trigger] s[i] <= '9' by {
                assert(is_digit(body[i - k]));
            }
        }
        if (s[0] == 'e' || s[0] == 'E') && s.len() > 1 && '0' <= s.last() <= '9' && (s[1] == '+'
            || s[1] == '-' || '0' <= s[1] <= '9') && (forall|i: int|
            2 <= i < s.len() ==> '0' <= #[trigger] s[i] <= '9') {
            assert(is_letter(s[0], 'e'));
            if s.len() == 2 {
                assert(s.last() == s[1]);
            }
            assert(rest[0] == s[1]);
            assert forall|i: int| 0 <= i < body.len() implies is_digit(#[trigger] body[i]) by {
                assert(body[i] == s[i + k]);
            }
        }
    }
}

/// Every decimal number in the usual notation is read as a floating-point value.
pub proof fn law_floats_are_decimal_numbers(n: Notation)
    requires
        n.is_sound(),
    ensures
        is_float(n.text()),
{
    let s = n.text();
    let body = signed_body(s);
    let point = if n.has_point {
        seq!['.']
    } else {
        Seq::empty()
    };
    let unsigned = n.whole + point + n.fraction + n.exponent;
    assert(s =~= n.sign + unsigned);
    if n.sign.len() == 0 {
        assert(s =~= unsigned);
        if n.whole.len() > 0 {
            assert(unsigned[0] == n.whole[0]);
        } else {
            assert(unsigned[0] == '.');
        }
        assert(body == unsigned);
    } else {
        assert(s[0] == n.sign[0]);
        assert(s.drop_first() =~= unsigned);
    }
    let w = n.whole.len() as int;
    assert forall|i: int| 0 <= i < w implies digit()(#[trigger] unsigned[i]) by {
        assert(unsigned[i] == n.whole[i]);
    }
    lemma_exponent_parts(n.exponent);
    if n.has_point {
        assert(unsigned[w] == '.');
        crate::text::lemma_span_is(unsigned, digit(), w);
        let rest = unsigned.skip(w);
        let tail = rest.drop_first();
        assert(tail =~= n.fraction + n.exponent);
        let f = n.fraction.len() as int;
        assert forall|i: int| 0 <= i < f implies digit()(#[trigger] tail[i]) by {
            assert(tail[i] == n.fraction[i]);
        }
        if n.exponent.len() > 0 {
            assert(tail[f] == n.exponent[0]);
        }
        crate::text::lemma_span_is(tail, digit(), f);
        assert(tail.skip(f) =~= n.exponent);
        assert(is_number(unsigned));
    } else {
        assert(unsigned =~= n.whole + n.exponent);
        if n.exponent.len() > 0 {
            assert(unsigned[w] == n.exponent[0]);
        }
        crate::text::lemma_span_is(unsigned, digit(), w);
        assert(unsigned.skip(w) =~= n.exponent);
        assert(is_number(unsigned));
    }
}

/// Nothing is read as a floating-point value but a decimal number in the usual
/// notation, or one of three words in any mixture of cases, with at most one sign
/// in front.
pub proof fn law_only_decimal_numbers_are_floats(s: Seq<char>)
    requires
        is_float(s),
    ensures
        ({
            ||| exists|n: Notation| n.is_sound() && #[trigger] n.text() == s
            ||| spells(signed_body(s), "inf"@)
            ||| spells(signed_body(s), "infinity"@)
            ||| spells(signed_body(s), "nan"@)
        }),
{
    let body = signed_body(s);
    if is_number(body) {
        lemma_span(body, digit());
        let w = span(body, digit());
        let rest = body.skip(w);
        let sign = s.take(s.len() - body.len());
        let whole = body.take(w);
        assert forall|i: int| 0 <= i < whole.len() implies '0' <= #[trigger] whole[i] <= '9' by {
            assert(digit()(body[i]));
        }
        assert(sign =~= Seq::<char>::empty() || sign =~= seq!['+'] || sign =~= seq!['-']);
        if rest.len() > 0 && rest[0] == '.' {
            let tail = rest.drop_first();
            lemma_span(tail, digit());
            let f = span(tail, digit());
            let fraction = tail.take(f);
            let exponent = tail.skip(f);
            assert forall|i: int| 0 <= i < fraction.len() implies '0' <= #[trigger] fraction[i]
                <= '9' by {
                assert(digit()(tail[i]));
            }
            lemma_exponent_parts(exponent);
            let n = Notation { sign, whole, has_point: true, fraction, exponent };
            assert(n.is_sound());
            assert(n.text() =~= s);
        } else {
            lemma_exponent_parts(rest);
            let n = Notation {
                sign,
                whole,
                has_point: false,
                fraction: Seq::empty(),
                exponent: rest,
            };
            assert(n.is_sound());
            assert(n.text() =~= s);
        }
    }
}

/// Whether `c` is the lower-case ASCII letter `l`, in either case.
fn letter(c: char, l: char) -> (r: bool)
    ensures
        r == is_letter(c, l),
{
    c == l || ('A' <= c && c <= 'Z' && c as u32 + 32 == l as u32)
}

/// Whether the characters of `v` from `from` on spell `word`.
fn spells_from(v: &Vec<char>, from: usize, word: &str) -> (r: bool)
    requires
        from <= v@.len(),
    ensures
        r == spells(v@.skip(from as int), word@),
{
    let letters = char_vec(word);
    let ghost s = v@.skip(from as int);
    let total: usize = v.len();
    if total - from != letters.len() {
        return false;
    }
    let mut i: usize = 0;
    while i < letters.len()
        invariant
            i <= letters@.len(),
            letters@ == word@,
            from + letters@.len() == total,
            total == v@.len(),
            s == v@.skip(from as int),
            forall|j: int| 0 <= j < i ==> is_letter(#[trigger] s[j], word@[j]),
        decreases letters@.len() - i,
    {
        let c = v[from + i];
        let l = letters[i];
        assert(s[i as int] == c);
        if !letter(c, l) {
            return false;
        }
        i = i + 1;
    }
    true
}

/// Where the run of digits that starts at `from` ends.
fn digits_end(v: &Vec<char>, from: usize) -> (k: usize)
    requires
        from <= v@.len(),
    ensures
        from <= k <= v@.len(),
        k - from == span(v@.skip(from as int), digit()),
{
    let mut k: usize = from;
    while k < v.len() && '0' <= v[k] && v[k] <= '9'
        invariant
            from <= k <= v@.len(),
            forall|j: int| from <= j < k ==> is_digit(#[trigger] v@[j]),
        decreases v@.len() - k,
    {
        k = k + 1;
    }
    proof {
        crate::text::lemma_span_is(v@.skip(from as int), digit(), k - from);
    }
    k
}

/// Where what follows an optional sign at `from` starts.
fn sign_end(v: &Vec<char>, from: usize) -> (k: usize)
    requires
        from <= v@.len(),
    ensures
        from <= k <= v@.len(),
        v@.skip(k as int) == signed_body(v@.skip(from as int)),
{
    if from < v.len() && (v[from] == '+' || v[from] == '-') {
        assert(v@.skip(from as int).drop_first() == v@.skip(from + 1));
        from + 1
    } else {
        from
    }
}

/// Whether the characters of `v` from `from` on are nothing or an exponent.
fn exponent_from(v: &Vec<char>, from: usize) -> (r: bool)
    requires
        from <= v@.len(),
    ensures
        r == is_exponent(v@.skip(from as int)),
{
    if from == v.len() {
        return true;
    }
    let c = v[from];
    assert(v@.skip(from as int)[0] == c);
    assert(v@.skip(from as int).drop_first() == v@.skip(from + 1));
    if !letter(c, 'e') {
        return false;
    }
    let start: usize = sign_end(v, from + 1);
    let stop: usize = digits_end(v, start);
    let ghost body = v@.skip(start as int);
    proof {
        lemma_span(body, digit());
        if stop < v@.len() {
            assert(!is_digit(body[stop - start]));
        }
    }
    start < v.len() && stop == v.len()
}

/// Whether `text` denotes a floating-point value.
pub fn float_text(text: &str) -> (r: bool)
    ensures
        r == is_float(text@),
{
    let v = char_vec(text);
    let start: usize = sign_end(&v, 0);
    let ghost body = signed_body(text@);
    assert(v@.skip(0) == text@);
    assert(v@.skip(start as int) == body);
    if spells_from(&v, start, "inf") || spells_from(&v, start, "infinity") || spells_from(
        &v,
        start,
        "nan",
    ) {
        return true;
    }
    let point: usize = digits_end(&v, start);
    assert(body.skip(point - start) == v@.skip(point as int));
    if point < v.len() && v[point] == '.' {
        assert(v@.skip(point as int).drop_first() == v@.skip(point + 1));
        let stop: usize = digits_end(&v, point + 1);
        assert(v@.skip(point + 1).skip(stop - (point + 1)) == v@.skip(stop as int));
        (point > start || stop > point + 1) && exponent_from(&v, stop)
    } else {
        point > start && exponent_from(&v, point)
    }
}

/// A floating-point reading, kept as the text that denotes it.
pub struct FloatText {
    text: String,
}

impl View for FloatText {
    type V = Seq<char>;

    closed spec fn view(&self) -> Seq<char> {
        self.text@
    }
}

impl FloatText {
    #[verifier::type_invariant]
    closed spec fn denotes_a_float(self) -> bool {
        is_float(self.text@)
    }

    /// The text, which denotes a floating-point value.
    pub fn text(&self) -> (r: &str)
        ensures
            r@ == self@,
            is_float(r@),
    {
        proof {
            use_type_invariant(self);
        }
        self.text.as_str()
    }
}

/// A value that one whitespace-delimited field can hold.
pub trait FieldValue: View + Sized {
    /// The value that `s` denotes, if it denotes one.
    spec fn reading(s: Seq<char>) -> Option<Self::V>;

    /// Parse `text`.
    fn from_text(text: &str) -> (r: Option<Self>)
        ensures
            match r {
                Some(value) => Self::reading(text@) == Some(value@),
                None => Self::reading(text@) is None,
            },
    ;
}

impl FieldValue for u32 {
    open spec fn reading(s: Seq<char>) -> Option<u32> {
        u32_of(s)
    }

    fn from_text(text: &str) -> (r: Option<u32>) {
        parse_u32(text)
    }
}

impl FieldValue for u64 {
    open spec fn reading(s: Seq<char>) -> Option<u64> {
        u64_of(s)
    }

    fn from_text(text: &str) -> (r: Option<u64>) {
        parse_u64(text)
    }
}

impl FieldValue for FloatText {
    open spec fn reading(s: Seq<char>) -> Option<Seq<char>> {
        if is_float(s) {
            Some(s)
        } else {
            None
        }
    }

    fn from_text(text: &str) -> (r: Option<FloatText>) {
        if float_text(text) {
            Some(FloatText { text: text.to_owned() })
        } else {
            None
        }
    }
}

} // verus!
