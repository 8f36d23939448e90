//! Text as bytes: lines, blanks, searches and numbers. The files and the
//! command output that the application reads are taken apart with these.

use vstd::prelude::*;
use vstd::string::StringSliceAdditionalSpecFns;

verus! {

pub const LINE_FEED: u8 = 10;

pub const SPACE: u8 = 32;

pub const PLUS: u8 = 43;

pub const DIGIT_ZERO: u8 = 48;

pub const DIGIT_NINE: u8 = 57;

pub const UPPER_A: u8 = 65;

pub const UPPER_F: u8 = 70;

pub const LOWER_A: u8 = 97;

pub const LOWER_F: u8 = 102;

pub const DOUBLE_QUOTE: u8 = 34;

pub const SINGLE_QUOTE: u8 = 39;

/// A stretch of a text: the bytes from `start` up to, not including, `end`.
#[derive(Clone, Copy, Debug, PartialEq, Eq, Structural)]
pub struct TextRange {
    pub start: usize,
    pub end: usize,
}

/// The kinds of bytes that are stripped from the ends of a text.
#[derive(Clone, Copy, Debug, PartialEq, Eq, Structural)]
pub enum Strip {
    /// White space: tab, line feed, vertical tab, form feed, carriage return
    /// and space.
    Blanks,
    /// The single and the double quote.
    Quotes,
}

/// Whether a byte is white space.
pub open spec fn is_blank(b: u8) -> bool {
    b == 32 || (9 <= b <= 13)
}

/// Whether a byte is of the kind that is stripped.
pub open spec fn is_stripped(kind: Strip, b: u8) -> bool {
    match kind {
        Strip::Blanks => is_blank(b),
        Strip::Quotes => b == 34 || b == 39,
    }
}

/// Where the line that begins at `from` ends: at the next line feed, or at
/// the end of the text.
pub open spec fn line_end(s: Seq<u8>, from: int) -> int
    decreases s.len() - from,
{
    if from < 0 || from >= s.len() {
        s.len() as int
    } else if s[from] == 10 {
        from
    } else {
        line_end(s, from + 1)
    }
}

/// The lines of the text from `from` on, as stretches without their line
/// feeds. A line feed at the very end begins no further line.
pub open spec fn lines_from(s: Seq<u8>, from: int) -> Seq<(int, int)>
    decreases s.len() - from + 1,
    via lines_from_decreases
{
    if from < 0 || from >= s.len() {
        Seq::empty()
    } else {
        seq![(from, line_end(s, from))] + lines_from(s, line_end(s, from) + 1)
    }
}

#[via_fn]
proof fn lines_from_decreases(s: Seq<u8>, from: int) {
    if 0 <= from <= s.len() {
        lemma_line_end(s, from);
    }
}

/// The line ends within the text, not before its start, and holds no line
/// feed.
pub proof fn lemma_line_end(s: Seq<u8>, from: int)
    requires
        0 <= from <= s.len(),
    ensures
        from <= line_end(s, from) <= s.len(),
        line_end(s, from) < s.len() ==> s[line_end(s, from)] == 10,
        forall|i: int| from <= i < line_end(s, from) ==> s[i] != 10,
    decreases s.len() - from,
{
    if from < s.len() && s[from] != 10 {
        lemma_line_end(s, from + 1);
    }
}

/// The first place from `from` on, before `to`, whose byte is not stripped;
/// `to` where there is none.
pub open spec fn first_kept(s: Seq<u8>, kind: Strip, from: int, to: int) -> int
    decreases to - from,
{
    if from >= to || from < 0 || from >= s.len() || !is_stripped(kind, s[from]) {
        if from <= to {
            from
        } else {
            to
        }
    } else {
        first_kept(s, kind, from + 1, to)
    }
}

/// The place behind the last byte before `to`, not before `from`, that is
/// not stripped; `from` where there is none.
pub open spec fn end_of_kept(s: Seq<u8>, kind: Strip, from: int, to: int) -> int
    decreases to - from,
{
    if to <= from || to > s.len() || to < 1 || !is_stripped(kind, s[to - 1]) {
        if from <= to {
            to
        } else {
            from
        }
    } else {
        end_of_kept(s, kind, from, to - 1)
    }
}

/// The stretch without the stripped bytes at its two ends.
pub open spec fn stripped(s: Seq<u8>, kind: Strip, from: int, to: int) -> (int, int) {
    (first_kept(s, kind, from, to), end_of_kept(s, kind, first_kept(s, kind, from, to), to))
}

/// The first place from `from` on, before `to`, that holds the byte `b`;
/// `to` where there is none.
pub open spec fn index_of(s: Seq<u8>, b: u8, from: int, to: int) -> int
    decreases to - from,
{
    if from >= to || from < 0 || from >= s.len() || s[from] == b {
        if from <= to {
            from
        } else {
            to
        }
    } else {
        index_of(s, b, from + 1, to)
    }
}

/// Whether `word` stands in the text at place `at`, and ends by `to`.
pub open spec fn stands_at(s: Seq<u8>, word: Seq<u8>, at: int, to: int) -> bool {
    0 <= at && at + word.len() <= to && to <= s.len() && s.subrange(at, at + word.len()) == word
}

/// The first place from `from` on at which `word` stands before `to`; `to`
/// where there is none.
pub open spec fn find(s: Seq<u8>, word: Seq<u8>, from: int, to: int) -> int
    decreases to - from,
{
    if from >= to || from < 0 {
        to
    } else if stands_at(s, word, from, to) {
        from
    } else {
        find(s, word, from + 1, to)
    }
}

/// What a stripped stretch is: it lies within the stretch, its ends are
/// kept bytes, and everything outside it is stripped.
pub proof fn lemma_stripped(s: Seq<u8>, kind: Strip, from: int, to: int)
    requires
        0 <= from <= to <= s.len(),
    ensures
        from <= stripped(s, kind, from, to).0 <= stripped(s, kind, from, to).1 <= to,
        forall|i: int|
            from <= i < stripped(s, kind, from, to).0 ==> is_stripped(kind, #[trigger] s[i]),
        forall|i: int|
            stripped(s, kind, from, to).1 <= i < to ==> is_stripped(kind, #[trigger] s[i]),
        stripped(s, kind, from, to).0 < stripped(s, kind, from, to).1 ==> !is_stripped(
            kind,
            s[stripped(s, kind, from, to).0],
        ) && !is_stripped(kind, s[stripped(s, kind, from, to).1 - 1]),
{
    lemma_first_kept(s, kind, from, to);
    lemma_end_of_kept(s, kind, first_kept(s, kind, from, to), to);
}

pub proof fn lemma_first_kept(s: Seq<u8>, kind: Strip, from: int, to: int)
    requires
        0 <= from <= to <= s.len(),
    ensures
        from <= first_kept(s, kind, from, to) <= to,
        forall|i: int| from <= i < first_kept(s, kind, from, to) ==> is_stripped(
            kind,
            #[trigger] s[i],
        ),
        first_kept(s, kind, from, to) < to ==> !is_stripped(
            kind,
            s[first_kept(s, kind, from, to)],
        ),
    decreases to - from,
{
    if from < to && is_stripped(kind, s[from]) {
        lemma_first_kept(s, kind, from + 1, to);
    }
}

pub proof fn lemma_end_of_kept(s: Seq<u8>, kind: Strip, from: int, to: int)
    requires
        0 <= from <= to <= s.len(),
    ensures
        from <= end_of_kept(s, kind, from, to) <= to,
        forall|i: int| end_of_kept(s, kind, from, to) <= i < to ==> is_stripped(
            kind,
            #[trigger] s[i],
        ),
        from < end_of_kept(s, kind, from, to) ==> !is_stripped(
            kind,
            s[end_of_kept(s, kind, from, to) - 1],
        ),
    decreases to - from,
{
    if from < to && is_stripped(kind, s[to - 1]) {
        lemma_end_of_kept(s, kind, from, to - 1);
    }
}

/// What `index_of` finds: the first place that holds the byte.
pub proof fn lemma_index_of(s: Seq<u8>, b: u8, from: int, to: int)
    requires
        0 <= from <= to <= s.len(),
    ensures
        from <= index_of(s, b, from, to) <= to,
        forall|i: int| from <= i < index_of(s, b, from, to) ==> s[i] != b,
        index_of(s, b, from, to) < to ==> s[index_of(s, b, from, to)] == b,
    decreases to - from,
{
    if from < to && s[from] != b {
        lemma_index_of(s, b, from + 1, to);
    }
}

/// What `find` finds: the first place at which the word stands.
pub proof fn lemma_find(s: Seq<u8>, word: Seq<u8>, from: int, to: int)
    requires
        0 <= from <= to <= s.len(),
    ensures
        from <= find(s, word, from, to) <= to,
        forall|i: int| from <= i < find(s, word, from, to) ==> !stands_at(s, word, i, to),
        find(s, word, from, to) < to ==> stands_at(s, word, find(s, word, from, to), to),
    decreases to - from,
{
    if from < to && !stands_at(s, word, from, to) {
        lemma_find(s, word, from + 1, to);
    }
}

/// Whether a byte is white space.
pub fn byte_is_blank(b: u8) -> (r: bool)
    ensures
        r == is_blank(b),
{
    b == SPACE || (9 <= b && b <= 13)
}

/// Whether a byte is of the kind that is stripped.
pub fn byte_is_stripped(kind: Strip, b: u8) -> (r: bool)
    ensures
        r == is_stripped(kind, b),
{
    match kind {
        Strip::Blanks => byte_is_blank(b),
        Strip::Quotes => b == DOUBLE_QUOTE || b == SINGLE_QUOTE,
    }
}

/// Where the line that begins at `from` ends.
pub(crate) fn find_line_end(text: &[u8], from: usize) -> (end: usize)
    requires
        from <= text@.len(),
    ensures
        end == line_end(text@, from as int),
        from <= end <= text@.len(),
{
    let mut i: usize = from;
    while i < text.len() && text[i] != LINE_FEED
        invariant
            from <= i <= text@.len(),
            line_end(text@, from as int) == line_end(text@, i as int),
        decreases text@.len() - i,
    {
        i = i + 1;
    }
    i
}

/// The stretch without the stripped bytes at its two ends.
pub(crate) fn strip(text: &[u8], kind: Strip, from: usize, to: usize) -> (r: TextRange)
    requires
        from <= to <= text@.len(),
    ensures
        (r.start as int, r.end as int) == stripped(text@, kind, from as int, to as int),
        from <= r.start <= r.end <= to,
{
    let mut a: usize = from;
    while a < to && byte_is_stripped(kind, text[a])
        invariant
            from <= a <= to <= text@.len(),
            first_kept(text@, kind, from as int, to as int) == first_kept(
                text@,
                kind,
                a as int,
                to as int,
            ),
        decreases to - a,
    {
        a = a + 1;
    }
    let mut b: usize = to;
    while a < b && byte_is_stripped(kind, text[b - 1])
        invariant
            a <= b <= to <= text@.len(),
            end_of_kept(text@, kind, a as int, to as int) == end_of_kept(
                text@,
                kind,
                a as int,
                b as int,
            ),
        decreases b - a,
    {
        b = b - 1;
    }
    TextRange { start: a, end: b }
}

/// The first place in the stretch that holds the byte `b`, or `to`.
pub(crate) fn find_byte(text: &[u8], b: u8, from: usize, to: usize) -> (at: usize)
    requires
        from <= to <= text@.len(),
    ensures
        at == index_of(text@, b, from as int, to as int),
        from <= at <= to,
{
    let mut i: usize = from;
    while i < to && text[i] != b
        invariant
            from <= i <= to <= text@.len(),
            index_of(text@, b, from as int, to as int) == index_of(text@, b, i as int, to as int),
        decreases to - i,
    {
        i = i + 1;
    }
    i
}

/// Whether the stretch holds exactly the bytes of `word`.
pub(crate) fn range_is(text: &[u8], from: usize, to: usize, word: &str) -> (r: bool)
    requires
        from <= to <= text@.len(),
    ensures
        r == (text@.subrange(from as int, to as int) == word.spec_bytes()),
{
    let bytes: &[u8] = word.as_bytes();
    if bytes.len() != to - from {
        return false;
    }
    let mut i: usize = 0;
    while i < bytes.len()
        invariant
            from <= to <= text@.len(),
            bytes@.len() == to - from,
            i <= bytes@.len(),
            bytes@ == word.spec_bytes(),
            forall|j: int| 0 <= j < i ==> text@[from + j] == bytes@[j],
        decreases bytes@.len() - i,
    {
        if text[from + i] != bytes[i] {
            assert(text@.subrange(from as int, to as int)[i as int] != bytes@[i as int]);
            return false;
        }
        i = i + 1;
    }
    assert(text@.subrange(from as int, to as int) =~= bytes@);
    true
}

/// Whether two stretches of the text hold the same bytes.
pub(crate) fn ranges_equal(text: &[u8], a: TextRange, b: TextRange) -> (r: bool)
    requires
        a.start <= a.end <= text@.len(),
        b.start <= b.end <= text@.len(),
    ensures
        r == (text@.subrange(a.start as int, a.end as int) == text@.subrange(
            b.start as int,
            b.end as int,
        )),
{
    let n: usize = a.end - a.start;
    if b.end - b.start != n {
        assert(text@.subrange(a.start as int, a.end as int).len() != text@.subrange(
            b.start as int,
            b.end as int,
        ).len());
        return false;
    }
    let mut i: usize = 0;
    while i < n
        invariant
            a.start <= a.end <= text@.len(),
            b.start <= b.end <= text@.len(),
            n == a.end - a.start,
            n == b.end - b.start,
            i <= n,
            forall|j: int|
                0 <= j < i ==> text@.subrange(a.start as int, a.end as int)[j] == (
                #[trigger] text@.subrange(b.start as int, b.end as int)[j]),
        decreases n - i,
    {
        if text[a.start + i] != text[b.start + i] {
            assert(text@.subrange(a.start as int, a.end as int)[i as int] != text@.subrange(
                b.start as int,
                b.end as int,
            )[i as int]);
            return false;
        }
        i = i + 1;
    }
    assert(text@.subrange(a.start as int, a.end as int) =~= text@.subrange(
        b.start as int,
        b.end as int,
    ));
    true
}

/// Whether `word` stands in the text at place `at`, and ends by `to`.
pub(crate) fn word_stands_at(text: &[u8], word: &str, at: usize, to: usize) -> (r: bool)
    requires
        at <= to <= text@.len(),
    ensures
        r == stands_at(text@, word.spec_bytes(), at as int, to as int),
{
    let n: usize = word.as_bytes().len();
    if n > to - at {
        return false;
    }
    range_is(text, at, at + n, word)
}

/// The first place in the stretch at which `word` stands, or `to`.
pub(crate) fn find_word(text: &[u8], word: &str, from: usize, to: usize) -> (at: usize)
    requires
        from <= to <= text@.len(),
    ensures
        at == find(text@, word.spec_bytes(), from as int, to as int),
        from <= at <= to,
{
    let mut i: usize = from;
    while i < to
        invariant
            from <= i <= to <= text@.len(),
            find(text@, word.spec_bytes(), from as int, to as int) == find(
                text@,
                word.spec_bytes(),
                i as int,
                to as int,
            ),
        decreases to - i,
    {
        if word_stands_at(text, word, i, to) {
            return i;
        }
        i = i + 1;
    }
    to
}

/// The value of a digit in the given radix, 10 or 16.
pub open spec fn digit_value(b: u8, radix: int) -> Option<int> {
    if 48 <= b <= 57 {
        Some(b - 48)
    } else if radix == 16 && 97 <= b <= 102 {
        Some(b - 97 + 10)
    } else if radix == 16 && 65 <= b <= 70 {
        Some(b - 65 + 10)
    } else {
        None
    }
}

/// The number that a row of digits spells; `None` where a byte is no digit.
/// No digits spell zero.
pub open spec fn digits_value(s: Seq<u8>, radix: int) -> Option<int>
    decreases s.len(),
{
    if s.len() == 0 {
        Some(0)
    } else {
        match (digits_value(s.drop_last(), radix), digit_value(s.last(), radix)) {
            (Some(v), Some(d)) => Some(v * radix + d),
            _ => None,
        }
    }
}

/// The number that a text spells: one or more digits, with or without a
/// plus sign before them, and a value of at most `max`. Anything else spells
/// no number.
pub open spec fn number_value(s: Seq<u8>, radix: int, max: int) -> Option<int> {
    let digits = if s.len() > 0 && s[0] == 43 {
        s.drop_first()
    } else {
        s
    };
    if digits.len() == 0 {
        None
    } else {
        at_most(digits_value(digits, radix), max)
    }
}

/// The number, if there is one and it is at most `max`.
pub open spec fn at_most(v: Option<int>, max: int) -> Option<int> {
    match v {
        Some(v) if v <= max => Some(v),
        _ => None,
    }
}

/// A number grows with every digit that is added to it.
proof fn lemma_digits_grow(s: Seq<u8>, radix: int, n: int)
    requires
        radix == 10 || radix == 16,
        0 <= n <= s.len(),
        digits_value(s, radix) is Some,
    ensures
        digits_value(s.subrange(0, n), radix) is Some,
        0 <= digits_value(s.subrange(0, n), radix)->Some_0 <= digits_value(s, radix)->Some_0,
    decreases s.len() - n,
{
    if n == s.len() {
        assert(s.subrange(0, n) =~= s);
        lemma_digits_not_negative(s, radix);
    } else {
        lemma_digits_grow(s, radix, n + 1);
        let longer = s.subrange(0, n + 1);
        assert(longer.drop_last() =~= s.subrange(0, n));
        lemma_digits_not_negative(s.subrange(0, n), radix);
        let v = digits_value(s.subrange(0, n), radix)->Some_0;
        assert(v * radix >= v) by (nonlinear_arith)
            requires
                v >= 0,
                radix >= 1,
        ;
    }
}

proof fn lemma_digits_not_negative(s: Seq<u8>, radix: int)
    requires
        radix == 10 || radix == 16,
    ensures
        digits_value(s, radix) matches Some(v) ==> v >= 0,
    decreases s.len(),
{
    if s.len() > 0 {
        lemma_digits_not_negative(s.drop_last(), radix);
        if let Some(v) = digits_value(s.drop_last(), radix) {
            assert(v * radix >= 0) by (nonlinear_arith)
                requires
                    v >= 0,
                    radix >= 1,
            ;
        }
    }
}

/// A row of bytes with a byte in it that is no digit spells no number.
proof fn lemma_bad_digit(s: Seq<u8>, radix: int, at: int)
    requires
        0 <= at < s.len(),
        digit_value(s[at], radix) is None,
    ensures
        digits_value(s, radix) is None,
    decreases s.len(),
{
    if at < s.len() - 1 {
        lemma_bad_digit(s.drop_last(), radix, at);
    }
}

/// The value of a digit in radix 10 or 16.
fn value_of_digit(b: u8, hex: bool) -> (r: Option<u8>)
    ensures
        match r {
            Some(d) => digit_value(
                b,
                if hex {
                    16
                } else {
                    10
                },
            ) == Some(d as int) && d < 16,
            None => digit_value(
                b,
                if hex {
                    16
                } else {
                    10
                },
            ) is None,
        },
{
    if DIGIT_ZERO <= b && b <= DIGIT_NINE {
        Some(b - DIGIT_ZERO)
    } else if hex && LOWER_A <= b && b <= LOWER_F {
        Some(b - LOWER_A + 10)
    } else if hex && UPPER_A <= b && b <= UPPER_F {
        Some(b - UPPER_A + 10)
    } else {
        None
    }
}

/// The number that the stretch spells, in radix 16 if `hex` and in radix 10
/// otherwise, if it spells one of at most `max`.
pub(crate) fn parse_number(text: &[u8], from: usize, to: usize, hex: bool, max: u64) -> (r: Option<
    u64,
>)
    requires
        from <= to <= text@.len(),
    ensures
        match r {
            Some(v) => number_value(
                text@.subrange(from as int, to as int),
                if hex {
                    16
                } else {
                    10
                },
                max as int,
            ) == Some(v as int),
            None => number_value(
                text@.subrange(from as int, to as int),
                if hex {
                    16
                } else {
                    10
                },
                max as int,
            ) is None,
        },
{
    let ghost whole = text@.subrange(from as int, to as int);
    let ghost radix: int = if hex {
        16
    } else {
        10
    };
    let first: usize = if from < to && text[from] == PLUS {
        from + 1
    } else {
        from
    };
    let ghost digits = text@.subrange(first as int, to as int);
    proof {
        if first > from {
            assert(whole[0] == 43);
            assert(whole.drop_first() =~= digits);
        } else {
            if whole.len() > 0 {
                assert(whole[0] == text@[from as int]);
            }
            assert(whole =~= digits);
        }
    }
    if first == to {
        return None;
    }
    let step: u64 = if hex {
        16
    } else {
        10
    };
    let mut acc: u64 = 0;
    let mut i: usize = first;
    assert(digits.subrange(0, 0) =~= Seq::<u8>::empty());
    while i < to
        invariant
            first <= i <= to <= text@.len(),
            digits == text@.subrange(first as int, to as int),
            radix == if hex {
                16int
            } else {
                10int
            },
            step == radix,
            acc <= max,
            digits_value(digits.subrange(0, i - first), radix) == Some(acc as int),
            number_value(text@.subrange(from as int, to as int), radix, max as int) == at_most(
                digits_value(digits, radix),
                max as int,
            ),
        decreases to - i,
    {
        let ghost prefix = digits.subrange(0, i - first);
        let ghost longer = digits.subrange(0, i + 1 - first);
        proof {
            assert(longer.drop_last() =~= prefix);
            assert(longer.last() == text@[i as int]);
        }
        let d: u8 = match value_of_digit(text[i], hex) {
            Some(d) => d,
            None => {
                proof {
                    lemma_bad_digit(digits, radix, i - first);
                }
                return None;
            },
        };
        let grown: Option<u64> = match acc.checked_mul(step) {
            Some(product) => product.checked_add(d as u64),
            None => None,
        };
        match grown {
            Some(v) if v <= max => {
                acc = v;
            },
            _ => {
                proof {
                    assert(digits_value(longer, radix) == Some(acc * radix + d));
                    assert(acc * radix + d > max);
                    if digits_value(digits, radix) is Some {
                        lemma_digits_grow(digits, radix, i + 1 - first);
                    }
                }
                return None;
            },
        }
        i = i + 1;
    }
    proof {
        assert(digits.subrange(0, to - first) =~= digits);
    }
    Some(acc)
}

} // verus!
