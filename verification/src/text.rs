//! Text as the analysis reads it: whitespace-separated tokens, lines and
//! unsigned decimal numbers.

use vstd::prelude::*;
use vstd::std_specs::iter::IteratorSpec;

verus! {

/// `String::push` appends one character.
pub assume_specification[ String::push ](s: &mut String, c: char)
    ensures
        final(s)@ == old(s)@.push(c),
;

/// Whether `c` carries the Unicode `White_Space` property.
pub open spec fn is_space(c: char) -> bool {
    let n = c as u32;
    ||| 0x09 <= n <= 0x0D
    ||| n == 0x20
    ||| n == 0x85
    ||| n == 0xA0
    ||| n == 0x1680
    ||| 0x2000 <= n <= 0x200A
    ||| n == 0x2028
    ||| n == 0x2029
    ||| n == 0x202F
    ||| n == 0x205F
    ||| n == 0x3000
}

/// The length of the longest prefix of `s` that holds no whitespace.
pub open spec fn run_len(s: Seq<char>) -> nat
    decreases s.len(),
{
    if s.len() == 0 || is_space(s[0]) {
        0
    } else {
        1 + run_len(s.skip(1))
    }
}

/// The tokens of `s`: its maximal runs of characters that are not
/// whitespace, first to last.
pub open spec fn tokens(s: Seq<char>) -> Seq<Seq<char>>
    decreases s.len(),
    via tokens_decreases
{
    if s.len() == 0 {
        Seq::empty()
    } else if is_space(s[0]) {
        tokens(s.skip(1))
    } else {
        seq![s.take(run_len(s) as int)] + tokens(s.skip(run_len(s) as int))
    }
}

#[via_fn]
proof fn tokens_decreases(s: Seq<char>) {
    lemma_run_len_bound(s);
}

/// A run is no longer than the text, and not empty where the text starts with
/// a character that is not whitespace.
pub proof fn lemma_run_len_bound(s: Seq<char>)
    ensures
        run_len(s) <= s.len(),
        s.len() > 0 && !is_space(s[0]) ==> run_len(s) >= 1,
    decreases s.len(),
{
    if s.len() > 0 && !is_space(s[0]) {
        lemma_run_len_bound(s.skip(1));
    }
}

/// A stretch without whitespace that ends at whitespace, or at the end of the
/// text, is a run.
pub proof fn lemma_run_is(s: Seq<char>, from: int, to: int)
    requires
        0 <= from <= to <= s.len(),
        forall|i: int| from <= i < to ==> !is_space(#[trigger] s[i]),
        to == s.len() || is_space(s[to]),
    ensures
        run_len(s.skip(from)) == to - from,
    decreases to - from,
{
    if from < to {
        lemma_run_is(s, from + 1, to);
        assert(s.skip(from).skip(1) =~= s.skip(from + 1));
    }
}

/// Whether `t` is not empty and holds no whitespace.
pub open spec fn is_word(t: Seq<char>) -> bool {
    &&& t.len() > 0
    &&& forall|j: int| 0 <= j < t.len() ==> !is_space(#[trigger] t[j])
}

/// A run holds no whitespace.
pub proof fn lemma_run_holds_no_space(s: Seq<char>)
    ensures
        run_len(s) <= s.len(),
        forall|j: int| 0 <= j < run_len(s) ==> !is_space(#[trigger] s[j]),
    decreases s.len(),
{
    lemma_run_len_bound(s);
    if s.len() > 0 && !is_space(s[0]) {
        lemma_run_holds_no_space(s.skip(1));
        assert forall|j: int| 0 <= j < run_len(s) implies !is_space(#[trigger] s[j]) by {
            if j > 0 {
                assert(s.skip(1)[j - 1] == s[j]);
            }
        }
    }
}

/// No token is empty, and no token holds whitespace.
pub proof fn lemma_tokens_are_words(s: Seq<char>)
    ensures
        forall|i: int| 0 <= i < tokens(s).len() ==> is_word(#[trigger] tokens(s)[i]),
    decreases s.len(),
{
    if s.len() == 0 {
        assert(tokens(s).len() == 0);
    } else if is_space(s[0]) {
        lemma_tokens_are_words(s.skip(1));
        assert(tokens(s) == tokens(s.skip(1)));
    } else {
        let n = run_len(s) as int;
        lemma_run_holds_no_space(s);
        lemma_tokens_are_words(s.skip(n));
        let rest = tokens(s.skip(n));
        assert(tokens(s) == seq![s.take(n)] + rest);
        assert forall|i: int| 0 <= i < tokens(s).len() implies is_word(
            #[trigger] tokens(s)[i],
        ) by {
            if i > 0 {
                assert(tokens(s)[i] == rest[i - 1]);
            } else {
                assert(tokens(s)[0] == s.take(n));
                assert(is_word(s.take(n)));
            }
        }
    }
}

/// The value of the decimal digit `c`.
pub open spec fn digit_of(c: char) -> nat {
    (c as u32 - 0x30) as nat
}

/// Whether `c` is one of the digits `0` to `9`.
pub open spec fn is_digit(c: char) -> bool {
    0x30 <= c as u32 <= 0x39
}

/// Whether `s` holds decimal digits and nothing else.
pub open spec fn all_digits(s: Seq<char>) -> bool {
    forall|i: int| 0 <= i < s.len() ==> is_digit(#[trigger] s[i])
}

/// The number that the decimal digits `s` write.
pub open spec fn decimal_value(s: Seq<char>) -> nat
    decreases s.len(),
{
    if s.len() == 0 {
        0
    } else {
        decimal_value(s.drop_last()) * 10 + digit_of(s.last())
    }
}

/// The digits of a number text: the text without one leading plus sign.
pub open spec fn digits_part(s: Seq<char>) -> Seq<char> {
    if s.len() > 0 && s[0] == '+' {
        s.skip(1)
    } else {
        s
    }
}

/// The number that `s` writes: one or more decimal digits, with or without
/// a plus sign before them, whose value can be held in 64 bits.
pub open spec fn parsed_u64(s: Seq<char>) -> Option<u64> {
    let digits = digits_part(s);
    if digits.len() > 0 && all_digits(digits) && decimal_value(digits) <= u64::MAX {
        Some(decimal_value(digits) as u64)
    } else {
        None
    }
}

/// The digits read so far never write more than all digits do.
pub proof fn lemma_decimal_value_grows(s: Seq<char>, k: int)
    requires
        0 <= k <= s.len(),
    ensures
        decimal_value(s.take(k)) <= decimal_value(s),
    decreases s.len() - k,
{
    if k < s.len() {
        lemma_decimal_value_grows(s, k + 1);
        assert(s.take(k + 1).drop_last() =~= s.take(k));
        assert(decimal_value(s.take(k)) * 10 >= decimal_value(s.take(k)));
    } else {
        assert(s.take(k) =~= s);
    }
}

/// The length of the first line of `s`: the characters before its first line
/// feed.
pub open spec fn line_len(s: Seq<char>) -> nat
    decreases s.len(),
{
    if s.len() == 0 || s[0] == '\n' {
        0
    } else {
        1 + line_len(s.skip(1))
    }
}

/// A line without the carriage return that ended it, if one did.
pub open spec fn without_return(line: Seq<char>) -> Seq<char> {
    if line.len() > 0 && line.last() == '\r' {
        line.drop_last()
    } else {
        line
    }
}

/// The lines of `s`. A line ends at a line feed or at the end of the text; a
/// carriage return before the line feed belongs to the line ending. Text
/// after the last line feed is a line only if it is not empty.
pub open spec fn lines(s: Seq<char>) -> Seq<Seq<char>>
    decreases s.len(),
    via lines_decreases
{
    if s.len() == 0 {
        Seq::empty()
    } else if line_len(s) == s.len() {
        seq![s]
    } else {
        seq![without_return(s.take(line_len(s) as int))] + lines(s.skip(line_len(s) as int + 1))
    }
}

#[via_fn]
proof fn lines_decreases(s: Seq<char>) {
    lemma_line_len_bound(s);
}

/// A first line is no longer than the text and holds no line feed; where it
/// is shorter than the text a line feed follows it.
pub proof fn lemma_line_len_bound(s: Seq<char>)
    ensures
        line_len(s) <= s.len(),
        line_len(s) < s.len() ==> s[line_len(s) as int] == '\n',
        forall|i: int| 0 <= i < line_len(s) ==> #[trigger] s[i] != '\n',
    decreases s.len(),
{
    if s.len() > 0 && s[0] != '\n' {
        lemma_line_len_bound(s.skip(1));
        assert forall|i: int| 0 <= i < line_len(s) implies #[trigger] s[i] != '\n' by {
            if i > 0 {
                assert(s.skip(1)[i - 1] == s[i]);
            }
        }
    }
}

/// A stretch without a line feed that ends at one, or at the end of the text,
/// is a first line.
pub proof fn lemma_line_is(s: Seq<char>, from: int, to: int)
    requires
        0 <= from <= to <= s.len(),
        forall|i: int| from <= i < to ==> #[trigger] s[i] != '\n',
        to == s.len() || s[to] == '\n',
    ensures
        line_len(s.skip(from)) == to - from,
    decreases to - from,
{
    if from < to {
        lemma_line_is(s, from + 1, to);
        assert(s.skip(from).skip(1) =~= s.skip(from + 1));
    }
}

/// The texts of a sequence of strings.
pub open spec fn texts(names: Seq<String>) -> Seq<Seq<char>> {
    Seq::new(names.len(), |i: int| names[i]@)
}

/// Tests a character for the Unicode `White_Space` property.
pub fn is_whitespace(c: char) -> (r: bool)
    ensures
        r == is_space(c),
{
    let n: u32 = c as u32;
    (0x09 <= n && n <= 0x0D) || n == 0x20 || n == 0x85 || n == 0xA0 || n == 0x1680 || (0x2000 <= n
        && n <= 0x200A) || n == 0x2028 || n == 0x2029 || n == 0x202F || n == 0x205F || n == 0x3000
}

/// The characters of `s`.
pub fn chars_of(s: &str) -> (chars: Vec<char>)
    ensures
        chars@ == s@,
{
    let mut chars: Vec<char> = Vec::new();
    let mut it = s.chars();
    let ghost mut seen: int = 0;
    loop
        invariant
            0 <= seen <= s@.len(),
            it.remaining() == s@.skip(seen),
            it.obeys_prophetic_iter_laws(),
            chars@ == s@.take(seen),
        decreases s@.len() - seen,
    {
        match it.next() {
            Some(c) => {
                proof {
                    seen = seen + 1;
                }
                chars.push(c);
            },
            None => {
                return chars;
            },
        }
    }
}

/// The text of `chars[from..to]`.
pub fn text_of(chars: &Vec<char>, from: usize, to: usize) -> (text: String)
    requires
        from <= to <= chars.len(),
    ensures
        text@ == chars@.subrange(from as int, to as int),
{
    let mut text = String::new();
    let mut i: usize = from;
    while i < to
        invariant
            from <= i <= to <= chars.len(),
            text@ == chars@.subrange(from as int, i as int),
        decreases to - i,
    {
        text.push(chars[i]);
        assert(chars@.subrange(from as int, i + 1) =~= chars@.subrange(from as int, i as int).push(
            chars@[i as int],
        ));
        i = i + 1;
    }
    text
}

/// Whether two texts are the same.
pub fn same_text(a: &str, b: &str) -> (r: bool)
    ensures
        r == (a@ == b@),
{
    let left = chars_of(a);
    let right = chars_of(b);
    if left.len() != right.len() {
        return false;
    }
    let mut i: usize = 0;
    while i < left.len()
        invariant
            i <= left.len(),
            left.len() == right.len(),
            left@ == a@,
            right@ == b@,
            forall|k: int| 0 <= k < i ==> left[k] == right[k],
        decreases left.len() - i,
    {
        if left[i] != right[i] {
            return false;
        }
        i = i + 1;
    }
    assert(left@ =~= right@);
    true
}

/// The index of the first character at or after `from` that is not
/// whitespace, or the length of the text where there is none.
fn skip_spaces(chars: &Vec<char>, from: usize) -> (at: usize)
    requires
        from <= chars.len(),
    ensures
        from <= at <= chars.len(),
        at < chars.len() ==> !is_space(chars@[at as int]),
        tokens(chars@.skip(at as int)) == tokens(chars@.skip(from as int)),
{
    let mut at: usize = from;
    while at < chars.len() && is_whitespace(chars[at])
        invariant
            from <= at <= chars.len(),
            tokens(chars@.skip(at as int)) == tokens(chars@.skip(from as int)),
        decreases chars.len() - at,
    {
        assert(chars@.skip(at as int).skip(1) =~= chars@.skip(at + 1));
        at = at + 1;
    }
    at
}

/// The index behind the token that starts at `from`.
fn token_end(chars: &Vec<char>, from: usize) -> (end: usize)
    requires
        from < chars.len(),
        !is_space(chars@[from as int]),
    ensures
        from < end <= chars.len(),
        end - from == run_len(chars@.skip(from as int)),
{
    let mut end: usize = from + 1;
    while end < chars.len() && !is_whitespace(chars[end])
        invariant
            from < end <= chars.len(),
            forall|i: int| from <= i < end ==> !is_space(#[trigger] chars@[i]),
        decreases chars.len() - end,
    {
        end = end + 1;
    }
    proof {
        lemma_run_is(chars@, from as int, end as int);
    }
    end
}

/// Splits a line into its tokens.
pub fn split_whitespace(line: &str) -> (parts: Vec<String>)
    ensures
        texts(parts@) == tokens(line@),
{
    let chars = chars_of(line);
    let mut parts: Vec<String> = Vec::new();
    let mut at: usize = 0;
    assert(chars@.skip(0) =~= chars@);
    loop
        invariant
            at <= chars.len(),
            chars@ == line@,
            tokens(line@) == texts(parts@) + tokens(chars@.skip(at as int)),
        decreases chars.len() - at,
    {
        let ghost found = texts(parts@);
        let start = skip_spaces(&chars, at);
        if start >= chars.len() {
            proof {
                assert(chars@.skip(start as int).len() == 0);
                assert(tokens(line@) =~= texts(parts@));
            }
            return parts;
        }
        let end = token_end(&chars, start);
        parts.push(text_of(&chars, start, end));
        proof {
            let rest = chars@.skip(start as int);
            assert(rest.take(end - start) =~= chars@.subrange(start as int, end as int));
            assert(rest.skip(end - start) =~= chars@.skip(end as int));
            assert(texts(parts@) =~= found + seq![chars@.subrange(start as int, end as int)]);
            assert(tokens(line@) =~= texts(parts@) + tokens(chars@.skip(end as int)));
        }
        at = end;
    }
}

/// The first token of a line, if it has one.
pub fn first_token(line: &str) -> (first: Option<String>)
    ensures
        match first {
            Some(token) => tokens(line@).len() > 0 && token@ == tokens(line@)[0],
            None => tokens(line@).len() == 0,
        },
{
    let chars = chars_of(line);
    assert(chars@.skip(0) =~= chars@);
    let start = skip_spaces(&chars, 0);
    if start >= chars.len() {
        assert(chars@.skip(start as int).len() == 0);
        return None;
    }
    let end = token_end(&chars, start);
    proof {
        let rest = chars@.skip(start as int);
        assert(rest.take(end - start) =~= chars@.subrange(start as int, end as int));
    }
    Some(text_of(&chars, start, end))
}

/// Reads an unsigned decimal number of at most 64 bits.
pub fn parse_u64(token: &str) -> (value: Option<u64>)
    ensures
        value == parsed_u64(token@),
{
    let chars = chars_of(token);
    let start: usize = if chars.len() > 0 && chars[0] == '+' {
        1
    } else {
        0
    };
    let ghost digits = digits_part(token@);
    assert(digits =~= chars@.skip(start as int));
    if start >= chars.len() {
        return None;
    }
    let mut value: u64 = 0;
    let mut i: usize = start;
    assert(digits.take(0) =~= Seq::empty());
    while i < chars.len()
        invariant
            start <= i <= chars.len(),
            start < chars.len(),
            digits == digits_part(token@),
            digits == chars@.skip(start as int),
            digits.len() == chars.len() - start,
            all_digits(digits.take(i - start)),
            value == decimal_value(digits.take(i - start)),
        decreases chars.len() - i,
    {
        let n: u32 = chars[i] as u32;
        if n < 0x30 || n > 0x39 {
            assert(!is_digit(digits[i - start]));
            return None;
        }
        let digit: u64 = (n - 0x30) as u64;
        proof {
            let now = digits.take(i - start + 1);
            assert(now.drop_last() =~= digits.take(i - start));
            assert(now.last() == chars@[i as int]);
            assert(decimal_value(now) == value * 10 + digit);
            lemma_decimal_value_grows(digits, i - start + 1);
            assert(all_digits(now));
        }
        let shifted: u64 = match value.checked_mul(10) {
            Some(shifted) => shifted,
            None => {
                return None;
            },
        };
        value = match shifted.checked_add(digit) {
            Some(sum) => sum,
            None => {
                return None;
            },
        };
        i = i + 1;
    }
    proof {
        assert(digits.take(i - start) =~= digits);
    }
    Some(value)
}

/// Whether `text` starts with `prefix`.
pub fn starts_with(text: &Vec<char>, prefix: &Vec<char>) -> (r: bool)
    ensures
        r == prefix@.is_prefix_of(text@),
{
    if prefix.len() > text.len() {
        return false;
    }
    let mut i: usize = 0;
    while i < prefix.len()
        invariant
            i <= prefix.len() <= text.len(),
            forall|k: int| 0 <= k < i ==> prefix[k] == text[k],
        decreases prefix.len() - i,
    {
        if prefix[i] != text[i] {
            assert(text@.subrange(0, prefix.len() as int)[i as int] != prefix@[i as int]);
            return false;
        }
        i = i + 1;
    }
    assert(prefix@ =~= text@.subrange(0, prefix.len() as int));
    true
}

/// Whether `text` ends with `suffix`.
pub fn ends_with(text: &Vec<char>, suffix: &Vec<char>) -> (r: bool)
    ensures
        r == suffix@.is_suffix_of(text@),
{
    if suffix.len() > text.len() {
        return false;
    }
    let shift: usize = text.len() - suffix.len();
    let mut i: usize = 0;
    while i < suffix.len()
        invariant
            i <= suffix.len() <= text.len(),
            shift == text.len() - suffix.len(),
            forall|k: int| 0 <= k < i ==> suffix[k] == text[shift + k],
        decreases suffix.len() - i,
    {
        if suffix[i] != text[shift + i] {
            assert(text@.subrange(shift as int, text.len() as int)[i as int] != suffix@[i as int]);
            return false;
        }
        i = i + 1;
    }
    assert(suffix@ =~= text@.subrange(shift as int, text.len() as int));
    true
}

/// Splits a text into its lines.
pub fn split_lines(text: &str) -> (parts: Vec<String>)
    ensures
        texts(parts@) == lines(text@),
{
    let chars = chars_of(text);
    let mut parts: Vec<String> = Vec::new();
    let mut at: usize = 0;
    assert(chars@.skip(0) =~= chars@);
    while at < chars.len()
        invariant
            at <= chars.len(),
            chars@ == text@,
            lines(text@) == texts(parts@) + lines(chars@.skip(at as int)),
        decreases chars.len() - at,
    {
        let ghost found = texts(parts@);
        let ghost rest = chars@.skip(at as int);
        let mut end: usize = at;
        while end < chars.len() && chars[end] != '\n'
            invariant
                at <= end <= chars.len(),
                forall|i: int| at <= i < end ==> #[trigger] chars@[i] != '\n',
            decreases chars.len() - end,
        {
            end = end + 1;
        }
        proof {
            lemma_line_is(chars@, at as int, end as int);
            assert(rest.take(end - at) =~= chars@.subrange(at as int, end as int));
        }
        if end >= chars.len() {
            parts.push(text_of(&chars, at, end));
            proof {
                assert(rest =~= chars@.subrange(at as int, end as int));
                assert(chars@.skip(end as int).len() == 0);
                assert(texts(parts@) =~= found + seq![rest]);
                assert(lines(text@) =~= texts(parts@) + lines(chars@.skip(end as int)));
            }
            at = end;
        } else {
            let stop: usize = if end > at && chars[end - 1] == '\r' {
                end - 1
            } else {
                end
            };
            parts.push(text_of(&chars, at, stop));
            proof {
                let line = chars@.subrange(at as int, end as int);
                assert(without_return(line) =~= chars@.subrange(at as int, stop as int));
                assert(rest.skip(end - at + 1) =~= chars@.skip(end + 1));
                assert(texts(parts@) =~= found + seq![without_return(line)]);
                assert(lines(text@) =~= texts(parts@) + lines(chars@.skip(end + 1)));
            }
            at = end + 1;
        }
    }
    proof {
        assert(chars@.skip(at as int).len() == 0);
        assert(lines(text@) =~= texts(parts@));
    }
    parts
}

} // verus!
