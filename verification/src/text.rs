//! Text: the operations on strings that the library needs, over sequences of
//! characters.
use vstd::arithmetic::div_mod::lemma_div_denominator;
use vstd::arithmetic::power::{lemma_pow0, lemma_pow1, lemma_pow_positive, pow};
use vstd::prelude::*;
use vstd::string::StrSliceExecFns;
use vstd::string::StringExecFns;

verus! {

/// `String::push` appends one character.
pub assume_specification[ String::push ](s: &mut String, c: char)
    ensures
        final(s)@ == old(s)@.push(c),
;

/// Whether a character is white space (the Unicode property `White_Space`).
pub open spec fn is_space(c: char) -> bool {
    ||| '\u{9}' <= c <= '\u{d}'
    ||| c == '\u{20}'
    ||| c == '\u{85}'
    ||| c == '\u{a0}'
    ||| c == '\u{1680}'
    ||| '\u{2000}' <= c <= '\u{200a}'
    ||| c == '\u{2028}'
    ||| c == '\u{2029}'
    ||| c == '\u{202f}'
    ||| c == '\u{205f}'
    ||| c == '\u{3000}'
}

/// Whether a character is white space.
pub fn white_space(c: char) -> (r: bool)
    ensures
        r == is_space(c),
{
    ('\u{9}' <= c && c <= '\u{d}') || c == '\u{20}' || c == '\u{85}' || c == '\u{a0}' || c
        == '\u{1680}' || ('\u{2000}' <= c && c <= '\u{200a}') || c == '\u{2028}' || c == '\u{2029}'
        || c == '\u{202f}' || c == '\u{205f}' || c == '\u{3000}'
}

/// `s` without the characters at its start that `drop` picks.
pub open spec fn trim_start(s: Seq<char>, drop: spec_fn(char) -> bool) -> Seq<char>
    decreases s.len(),
{
    if s.len() > 0 && drop(s.first()) {
        trim_start(s.drop_first(), drop)
    } else {
        s
    }
}

/// `s` without the characters at its end that `drop` picks.
pub open spec fn trim_end(s: Seq<char>, drop: spec_fn(char) -> bool) -> Seq<char>
    decreases s.len(),
{
    if s.len() > 0 && drop(s.last()) {
        trim_end(s.drop_last(), drop)
    } else {
        s
    }
}

/// `s` without the white space at both ends.
pub open spec fn trimmed(s: Seq<char>) -> Seq<char> {
    trim_end(trim_start(s, |c: char| is_space(c)), |c: char| is_space(c))
}

/// Nothing is left to drop at the end, and what is left is the start of `s`.
pub proof fn lemma_trim_end_stops(s: Seq<char>, drop: spec_fn(char) -> bool)
    ensures
        trim_end(s, drop).len() > 0 ==> !drop(trim_end(s, drop).last()),
        trim_end(trim_end(s, drop), drop) == trim_end(s, drop),
        trim_end(s, drop).is_prefix_of(s),
    decreases s.len(),
{
    if s.len() > 0 && drop(s.last()) {
        lemma_trim_end_stops(s.drop_last(), drop);
    }
}

/// Nothing is left to drop at the start.
proof fn lemma_trim_start_stops(s: Seq<char>, drop: spec_fn(char) -> bool)
    ensures
        trim_start(s, drop).len() > 0 ==> !drop(trim_start(s, drop).first()),
    decreases s.len(),
{
    if s.len() > 0 && drop(s.first()) {
        lemma_trim_start_stops(s.drop_first(), drop);
    }
}

/// Trimming a second time changes nothing.
pub proof fn lemma_trimmed_twice(s: Seq<char>)
    ensures
        trimmed(trimmed(s)) == trimmed(s),
{
    let drop = |c: char| is_space(c);
    let start = trim_start(s, drop);
    lemma_trim_start_stops(s, drop);
    lemma_trim_end_stops(start, drop);
    let both = trim_end(start, drop);
    if both.len() > 0 {
        assert(both.first() == start.first());
    }
    assert(trim_start(both, drop) == both);
}

/// `s` without the slashes at its end.
pub open spec fn without_end_slashes(s: Seq<char>) -> Seq<char> {
    trim_end(s, |c: char| c == '/')
}

/// `s` without the slashes at its start.
pub open spec fn without_start_slashes(s: Seq<char>) -> Seq<char> {
    trim_start(s, |c: char| c == '/')
}

/// The characters of a text.
pub(crate) fn chars_of(s: &str) -> (r: Vec<char>)
    ensures
        r@ == s@,
{
    let mut out: Vec<char> = Vec::new();
    for c in it: s.chars()
        invariant
            it.seq() == s@,
            out@ =~= s@.take(it.index() as int),
    {
        out.push(c);
    }
    assert(s@.take(s@.len() as int) =~= s@);
    out
}

/// The text without the white space at both ends.
pub fn trim(s: &str) -> (r: String)
    ensures
        r@ == trimmed(s@),
{
    let chars = chars_of(s);
    let mut from: usize = 0;
    let ghost drop = |c: char| is_space(c);
    assert(s@.skip(0) =~= s@);
    while from < chars.len() && white_space(chars[from])
        invariant
            from <= chars@.len(),
            chars@ == s@,
            drop == (|c: char| is_space(c)),
            trim_start(s@, drop) == trim_start(s@.skip(from as int), drop),
        decreases chars@.len() - from,
    {
        assert(s@.skip(from as int).drop_first() =~= s@.skip(from + 1));
        from = from + 1;
    }
    let mut to: usize = chars.len();
    assert(s@.subrange(from as int, to as int) =~= s@.skip(from as int));
    while from < to && white_space(chars[to - 1])
        invariant
            from <= to <= chars@.len(),
            chars@ == s@,
            drop == (|c: char| is_space(c)),
            trimmed(s@) == trim_end(s@.subrange(from as int, to as int), drop),
        decreases to,
    {
        assert(s@.subrange(from as int, to as int).drop_last() =~= s@.subrange(
            from as int,
            to - 1,
        ));
        to = to - 1;
    }
    s.substring_char(from, to).to_owned()
}

/// The text without the slashes at its end.
pub fn trim_end_slashes(s: &str) -> (r: String)
    ensures
        r@ == without_end_slashes(s@),
{
    let chars = chars_of(s);
    let ghost drop = |c: char| c == '/';
    let mut to: usize = chars.len();
    assert(s@.subrange(0, to as int) =~= s@);
    while 0 < to && chars[to - 1] == '/'
        invariant
            to <= chars@.len(),
            chars@ == s@,
            drop == (|c: char| c == '/'),
            without_end_slashes(s@) == trim_end(s@.subrange(0, to as int), drop),
        decreases to,
    {
        assert(s@.subrange(0, to as int).drop_last() =~= s@.subrange(0, to - 1));
        to = to - 1;
    }
    s.substring_char(0, to).to_owned()
}

/// The text without the slashes at its start.
pub fn trim_start_slashes(s: &str) -> (r: String)
    ensures
        r@ == without_start_slashes(s@),
{
    let chars = chars_of(s);
    let ghost drop = |c: char| c == '/';
    let mut from: usize = 0;
    assert(s@.skip(0) =~= s@);
    while from < chars.len() && chars[from] == '/'
        invariant
            from <= chars@.len(),
            chars@ == s@,
            drop == (|c: char| c == '/'),
            without_start_slashes(s@) == trim_start(s@.skip(from as int), drop),
        decreases chars@.len() - from,
    {
        assert(s@.skip(from as int).drop_first() =~= s@.skip(from + 1));
        from = from + 1;
    }
    assert(s@.subrange(from as int, chars@.len() as int) =~= s@.skip(from as int));
    s.substring_char(from, chars.len()).to_owned()
}

/// What is left of `s` behind `prefix`.
pub open spec fn behind(s: Seq<char>, prefix: Seq<char>) -> Option<Seq<char>> {
    if prefix.is_prefix_of(s) {
        Some(s.skip(prefix.len() as int))
    } else {
        None
    }
}

/// What is left of `s` before `suffix`.
pub open spec fn before(s: Seq<char>, suffix: Seq<char>) -> Option<Seq<char>> {
    if suffix.is_suffix_of(s) {
        Some(s.take(s.len() - suffix.len()))
    } else {
        None
    }
}

/// The characters of an optional text.
pub open spec fn text_of(s: Option<String>) -> Option<Seq<char>> {
    match s {
        Some(text) => Some(text@),
        None => None,
    }
}

/// What is left of a text behind a prefix.
pub fn strip_prefix(s: &str, prefix: &str) -> (r: Option<String>)
    ensures
        text_of(r) == behind(s@, prefix@),
{
    let n = s.unicode_len();
    let p = prefix.unicode_len();
    if p <= n && same_text(s.substring_char(0, p), prefix) {
        assert(s@.subrange(p as int, n as int) =~= s@.skip(p as int));
        assert(prefix@ =~= s@.subrange(0, p as int));
        Some(s.substring_char(p, n).to_owned())
    } else {
        None
    }
}

/// What is left of a text before a suffix.
pub fn strip_suffix(s: &str, suffix: &str) -> (r: Option<String>)
    ensures
        text_of(r) == before(s@, suffix@),
{
    let n = s.unicode_len();
    let p = suffix.unicode_len();
    if p <= n && same_text(s.substring_char(n - p, n), suffix) {
        assert(s@.subrange(0, n - p) =~= s@.take(n - p));
        Some(s.substring_char(0, n - p).to_owned())
    } else {
        None
    }
}

/// Whether two texts are equal.
pub fn same_text(a: &str, b: &str) -> (r: bool)
    ensures
        r == (a@ == b@),
{
    a.to_owned() == b.to_owned()
}

/// The digit of a value below sixteen.
pub open spec fn digit(value: int) -> char {
    seq!['0', '1', '2', '3', '4', '5', '6', '7', '8', '9', 'a', 'b', 'c', 'd', 'e', 'f'][value]
}

/// A natural number in decimal.
pub open spec fn decimal(n: nat) -> Seq<char>
    decreases n,
{
    if n < 10 {
        seq![digit(n as int)]
    } else {
        decimal(n / 10).push(digit((n % 10) as int))
    }
}

/// The last `width` hexadecimal digits of a natural number.
pub open spec fn hexadecimal(n: nat, width: nat) -> Seq<char>
    decreases width,
{
    if width == 0 {
        Seq::empty()
    } else {
        hexadecimal(n / 16, (width - 1) as nat).push(digit((n % 16) as int))
    }
}

fn digit_of(value: u64) -> (r: char)
    requires
        value < 16,
    ensures
        r == digit(value as int),
{
    proof {
        reveal_strlit("0123456789abcdef");
        assert("0123456789abcdef"@ =~= seq![
            '0',
            '1',
            '2',
            '3',
            '4',
            '5',
            '6',
            '7',
            '8',
            '9',
            'a',
            'b',
            'c',
            'd',
            'e',
            'f',
        ]);
    }
    "0123456789abcdef".get_char(value as usize)
}

/// A number in decimal.
pub fn decimal_text(n: u64) -> (r: String)
    ensures
        r@ == decimal(n as nat),
    decreases n,
{
    if n < 10 {
        let mut out = String::new();
        out.push(digit_of(n));
        assert(out@ =~= decimal(n as nat));
        out
    } else {
        let mut out = decimal_text(n / 10);
        out.push(digit_of(n % 10));
        out
    }
}

/// The last `width` hexadecimal digits of a number.
pub fn hexadecimal_text(n: u64, width: usize) -> (r: String)
    ensures
        r@ == hexadecimal(n as nat, width as nat),
    decreases width,
{
    if width == 0 {
        String::new()
    } else {
        let mut out = hexadecimal_text(n / 16, width - 1);
        out.push(digit_of(n % 16));
        out
    }
}

/// The value of a sequence of decimal digits, if it is one.
pub open spec fn digits_value(s: Seq<char>) -> Option<nat>
    decreases s.len(),
{
    if s.len() == 0 {
        Some(0)
    } else if !('0' <= s.last() <= '9') {
        None
    } else {
        match digits_value(s.drop_last()) {
            Some(n) => Some((n * 10 + (s.last() as nat - '0' as nat)) as nat),
            None => None,
        }
    }
}

/// The number that a text writes in decimal, with or without a plus sign, if a
/// `usize` holds it.
pub open spec fn usize_value(s: Seq<char>) -> Option<usize> {
    let digits = if s.len() > 0 && s.first() == '+' {
        s.drop_first()
    } else {
        s
    };
    match digits_value(digits) {
        Some(n) => if digits.len() > 0 && n <= usize::MAX {
            Some(n as usize)
        } else {
            None
        },
        None => None,
    }
}

/// What comes behind can only add to the value of a number's first digits.
proof fn lemma_digits_grow(s: Seq<char>, i: int)
    requires
        0 <= i <= s.len(),
    ensures
        digits_value(s) is Some ==> digits_value(s.take(i)) is Some && digits_value(s.take(i))->0
            <= digits_value(s)->0,
    decreases s.len(),
{
    if i < s.len() {
        lemma_digits_grow(s.drop_last(), i);
        assert(s.drop_last().take(i) =~= s.take(i));
    } else {
        assert(s.take(i) =~= s);
    }
}

/// The number that a text writes in decimal, if it writes one.
pub fn parse_usize(s: &str) -> (r: Option<usize>)
    ensures
        r == usize_value(s@),
{
    let chars = chars_of(s);
    let start: usize = if chars.len() > 0 && chars[0] == '+' { 1 } else { 0 };
    let ghost digits = if s@.len() > 0 && s@.first() == '+' { s@.drop_first() } else { s@ };
    assert(digits =~= s@.skip(start as int));
    if start == chars.len() {
        return None;
    }
    let mut value: usize = 0;
    let mut i: usize = start;
    while i < chars.len()
        invariant
            chars@ == s@,
            start <= i <= chars@.len(),
            start < chars@.len(),
            digits == (if s@.len() > 0 && s@.first() == '+' { s@.drop_first() } else { s@ }),
            digits == s@.skip(start as int),
            digits_value(digits.take(i - start)) == Some(value as nat),
        decreases chars@.len() - i,
    {
        let c = chars[i];
        proof {
            let now = digits.take(i - start + 1);
            assert(now.drop_last() =~= digits.take(i - start));
            assert(now.last() == c);
            lemma_digits_grow(digits, i - start + 1);
        }
        if !('0' <= c && c <= '9') {
            return None;
        }
        let d: usize = (c as u32 - '0' as u32) as usize;
        match value.checked_mul(10) {
            None => {
                return None;
            },
            Some(tens) => match tens.checked_add(d) {
                None => {
                    return None;
                },
                Some(sum) => {
                    value = sum;
                },
            },
        }
        i = i + 1;
    }
    assert(digits.take(digits.len() as int) =~= digits);
    Some(value)
}

/// The ASCII letter in lower case; any other character as it is.
pub open spec fn lower(c: char) -> char {
    if 'A' <= c <= 'Z' {
        (c as u32 + 32) as char
    } else {
        c
    }
}

/// The ASCII letter in upper case; any other character as it is.
pub open spec fn upper(c: char) -> char {
    if 'a' <= c <= 'z' {
        (c as u32 - 32) as char
    } else {
        c
    }
}

/// A text with its ASCII letters in lower case.
pub fn lower_case(s: &str) -> (r: String)
    ensures
        r@ == s@.map_values(|c: char| lower(c)),
{
    let mut out = String::new();
    for c in it: s.chars()
        invariant
            it.seq() == s@,
            out@ =~= s@.take(it.index() as int).map_values(|c: char| lower(c)),
    {
        if 'A' <= c && c <= 'Z' {
            out.push(((c as u8) + 32) as char);
        } else {
            out.push(c);
        }
    }
    assert(s@.take(s@.len() as int) =~= s@);
    out
}

/// A text with its ASCII letters in upper case.
pub fn upper_case(s: &str) -> (r: String)
    ensures
        r@ == s@.map_values(|c: char| upper(c)),
{
    let mut out = String::new();
    for c in it: s.chars()
        invariant
            it.seq() == s@,
            out@ =~= s@.take(it.index() as int).map_values(|c: char| upper(c)),
    {
        if 'a' <= c && c <= 'z' {
            out.push(((c as u8) - 32) as char);
        } else {
            out.push(c);
        }
    }
    assert(s@.take(s@.len() as int) =~= s@);
    out
}

/// The text without the white space around it, unless nothing is left.
pub open spec fn non_blank(s: Seq<char>) -> Option<Seq<char>> {
    if trimmed(s).len() == 0 {
        None
    } else {
        Some(trimmed(s))
    }
}

/// The text without the white space around it, unless nothing is left.
pub fn non_empty(value: String) -> (r: Option<String>)
    ensures
        text_of(r) == non_blank(value@),
{
    let out = trim(value.as_str());
    if out.as_str().is_empty() {
        None
    } else {
        Some(out)
    }
}

/// Trimming takes white space from both ends, all of it and nothing else: what is
/// left is a stretch of `s` with only white space before and behind it, and with
/// none at its own ends.
pub proof fn trimming_takes_white_space_only(s: Seq<char>)
    ensures
        exists|i: int, j: int|
            {
                &&& 0 <= i <= j <= s.len()
                &&& trimmed(s) == #[trigger] s.subrange(i, j)
                &&& forall|k: int| 0 <= k < i ==> is_space(#[trigger] s[k])
                &&& forall|k: int| j <= k < s.len() ==> is_space(#[trigger] s[k])
                &&& i < j ==> !is_space(s[i]) && !is_space(s[j - 1])
            },
{
    let drop = |c: char| is_space(c);
    let start = trim_start(s, drop);
    lemma_trim_start_drops(s, drop);
    lemma_trim_end_drops(start, drop);
    let i = s.len() - start.len();
    let j = i + trimmed(s).len();
    assert(trimmed(s) =~= s.subrange(i, j));
    assert forall|k: int| j <= k < s.len() implies is_space(#[trigger] s[k]) by {
        assert(start[k - i] == s[k]);
    }
    if i < j {
        assert(trimmed(s)[0] == start[0]);
        assert(start[0] == s[i]);
        assert(trimmed(s).last() == s[j - 1]);
    }
}

/// What is dropped at the start is dropped for good reason.
proof fn lemma_trim_start_drops(s: Seq<char>, drop: spec_fn(char) -> bool)
    ensures
        trim_start(s, drop).len() <= s.len(),
        trim_start(s, drop) == s.skip(s.len() - trim_start(s, drop).len()),
        forall|k: int|
            0 <= k < s.len() - trim_start(s, drop).len() ==> drop(#[trigger] s[k]),
        trim_start(s, drop).len() > 0 ==> !drop(trim_start(s, drop)[0]),
    decreases s.len(),
{
    if s.len() > 0 && drop(s.first()) {
        let rest = s.drop_first();
        lemma_trim_start_drops(rest, drop);
        let n = trim_start(s, drop).len();
        assert(rest.skip(rest.len() - n) =~= s.skip(s.len() - n));
        assert forall|k: int| 0 <= k < s.len() - n implies drop(#[trigger] s[k]) by {
            if k > 0 {
                assert(rest[k - 1] == s[k]);
            }
        }
    } else {
        assert(s.skip(0) =~= s);
    }
}

/// What is dropped at the end is dropped for good reason.
proof fn lemma_trim_end_drops(s: Seq<char>, drop: spec_fn(char) -> bool)
    ensures
        trim_end(s, drop).len() <= s.len(),
        trim_end(s, drop) == s.take(trim_end(s, drop).len() as int),
        forall|k: int| trim_end(s, drop).len() <= k < s.len() ==> drop(#[trigger] s[k]),
        trim_end(s, drop).len() > 0 ==> !drop(trim_end(s, drop).last()),
    decreases s.len(),
{
    if s.len() > 0 && drop(s.last()) {
        let rest = s.drop_last();
        lemma_trim_end_drops(rest, drop);
        let n = trim_end(s, drop).len();
        assert(rest.take(n as int) =~= s.take(n as int));
        assert forall|k: int| n <= k < s.len() implies drop(#[trigger] s[k]) by {
            if k < rest.len() {
                assert(rest[k] == s[k]);
            }
        }
    } else {
        assert(s.take(s.len() as int) =~= s);
    }
}

/// Slashes at the end are dropped, all of them and nothing else.
pub proof fn end_slashes_alone_are_dropped(s: Seq<char>)
    ensures
        exists|i: int|
            {
                &&& 0 <= i <= s.len()
                &&& without_end_slashes(s) == #[trigger] s.take(i)
                &&& forall|k: int| i <= k < s.len() ==> #[trigger] s[k] == '/'
                &&& i > 0 ==> s[i - 1] != '/'
            },
{
    let drop = |c: char| c == '/';
    lemma_trim_end_drops(s, drop);
    let i = without_end_slashes(s).len() as int;
    assert(without_end_slashes(s) == s.take(i));
    assert forall|k: int| i <= k < s.len() implies #[trigger] s[k] == '/' by {
        assert(drop(s[k]));
    }
    if i > 0 {
        assert(!drop(without_end_slashes(s).last()));
    }
}

/// Slashes at the start are dropped, all of them and nothing else.
pub proof fn start_slashes_alone_are_dropped(s: Seq<char>)
    ensures
        exists|i: int|
            {
                &&& 0 <= i <= s.len()
                &&& without_start_slashes(s) == #[trigger] s.skip(i)
                &&& forall|k: int| 0 <= k < i ==> #[trigger] s[k] == '/'
                &&& i < s.len() ==> s[i] != '/'
            },
{
    let drop = |c: char| c == '/';
    lemma_trim_start_drops(s, drop);
    let i = s.len() - without_start_slashes(s).len();
    assert(without_start_slashes(s) == s.skip(i));
    assert forall|k: int| 0 <= k < i implies #[trigger] s[k] == '/' by {
        assert(drop(s[k]));
    }
    if i < s.len() {
        assert(without_start_slashes(s)[0] == s[i]);
    }
}

/// What is left behind a prefix makes up the text again with it, and so does what
/// is left before a suffix; and there is something left whenever the text has the
/// prefix or the suffix.
pub proof fn affixes_are_cut_off(s: Seq<char>, part: Seq<char>)
    ensures
        behind(part + s, part) == Some(s),
        behind(s, part) is Some ==> part + behind(s, part)->0 == s,
        before(s + part, part) == Some(s),
        before(s, part) is Some ==> before(s, part)->0 + part == s,
{
    assert(part =~= (part + s).subrange(0, part.len() as int));
    assert((part + s).skip(part.len() as int) =~= s);
    assert((s + part).take(s.len() as int) =~= s);
    assert(part =~= (s + part).subrange(s.len() as int, (s + part).len() as int));
    if behind(s, part) is Some {
        assert(part + behind(s, part)->0 =~= s);
    }
    if before(s, part) is Some {
        assert(before(s, part)->0 + part =~= s);
    }
}

/// An optional text is there in the model exactly if it is there, with every
/// character.
pub proof fn optional_text_is_kept(s: Option<String>)
    ensures
        text_of(s) is Some <==> s is Some,
        s is Some ==> text_of(s)->0 == s->0@,
{
}

/// A text that is not all white space is kept without the white space around it,
/// and a text that is counts as none.
pub proof fn blank_text_is_none(s: Seq<char>)
    ensures
        non_blank(s) is None <==> forall|k: int| 0 <= k < s.len() ==> is_space(#[trigger] s[k]),
        non_blank(s) is Some ==> non_blank(s)->0 == trimmed(s),
{
    trimming_takes_white_space_only(s);
    let (i, j) = choose|i: int, j: int|
        {
            &&& 0 <= i <= j <= s.len()
            &&& trimmed(s) == #[trigger] s.subrange(i, j)
            &&& forall|k: int| 0 <= k < i ==> is_space(#[trigger] s[k])
            &&& forall|k: int| j <= k < s.len() ==> is_space(#[trigger] s[k])
            &&& i < j ==> !is_space(s[i]) && !is_space(s[j - 1])
        };
    assert(trimmed(s).len() == j - i);
    if i == j {
        assert forall|k: int| 0 <= k < s.len() implies is_space(#[trigger] s[k]) by {}
    }
}

/// The character that shows a digit of a value below sixteen: `0` to `9`, then
/// `a` to `f`.
pub open spec fn shows(c: char, value: int) -> bool {
    c as int == (if value < 10 {
        0x30 + value
    } else {
        0x61 + value - 10
    })
}

proof fn lemma_digit(value: int)
    requires
        0 <= value < 16,
    ensures
        shows(digit(value), value),
{
    let all = seq!['0', '1', '2', '3', '4', '5', '6', '7', '8', '9', 'a', 'b', 'c', 'd', 'e', 'f'];
    assert(all.len() == 16);
    assert(digit(value) == all[value]);
}

/// A number in decimal has at each place the digit that counts the powers of ten
/// there, and has no more places than it needs.
pub proof fn decimal_is_positional(n: nat)
    ensures
        decimal(n).len() > 0,
        n < pow(10, decimal(n).len()),
        decimal(n).len() > 1 ==> pow(10, (decimal(n).len() - 1) as nat) <= n,
        forall|i: int|
            0 <= i < decimal(n).len() ==> shows(
                #[trigger] decimal(n)[i],
                n as int / pow(10, (decimal(n).len() - 1 - i) as nat) % 10,
            ),
    decreases n,
{
    let len = decimal(n).len();
    reveal(pow);
    lemma_pow0(10);
    lemma_digit(n as int % 10);
    if n < 10 {
        lemma_pow1(10);
        assert(n as int / 1 == n);
    } else {
        let tens = n / 10;
        decimal_is_positional(tens);
        assert(decimal(tens).len() == len - 1);
        assert(pow(10, len) == 10 * pow(10, (len - 1) as nat));
        if len > 2 {
            assert(pow(10, (len - 1) as nat) == 10 * pow(10, (len - 2) as nat));
        } else {
            lemma_pow1(10);
        }
        assert forall|i: int| 0 <= i < len implies shows(
            #[trigger] decimal(n)[i],
            n as int / pow(10, (len - 1 - i) as nat) % 10,
        ) by {
            if i < len - 1 {
                let e = (len - 2 - i) as nat;
                assert(decimal(n)[i] == decimal(tens)[i]);
                assert(pow(10, (len - 1 - i) as nat) == 10 * pow(10, e));
                lemma_pow_positive(10, e);
                lemma_div_denominator(n as int, 10, pow(10, e));
            } else {
                assert(n as int / 1 == n);
            }
        }
    }
}

/// The hexadecimal digits of a number: as many as asked for, each counting the
/// powers of sixteen at its place.
pub proof fn hexadecimal_is_positional(n: nat, width: nat)
    ensures
        hexadecimal(n, width).len() == width,
        forall|i: int|
            0 <= i < width ==> shows(
                #[trigger] hexadecimal(n, width)[i],
                n as int / pow(16, (width - 1 - i) as nat) % 16,
            ),
    decreases width,
{
    reveal(pow);
    lemma_pow0(16);
    if width > 0 {
        lemma_digit(n as int % 16);
        hexadecimal_is_positional(n / 16, (width - 1) as nat);
        assert forall|i: int| 0 <= i < width implies shows(
            #[trigger] hexadecimal(n, width)[i],
            n as int / pow(16, (width - 1 - i) as nat) % 16,
        ) by {
            if i < width - 1 {
                let e = (width - 2 - i) as nat;
                assert(hexadecimal(n, width)[i] == hexadecimal(n / 16, (width - 1) as nat)[i]);
                assert(pow(16, (width - 1 - i) as nat) == 16 * pow(16, e));
                lemma_pow_positive(16, e);
                lemma_div_denominator(n as int, 16, pow(16, e));
            } else {
                assert(n as int / 1 == n);
            }
        }
    }
}

/// Numbers with the same hexadecimal digits are equal, if the digits are enough.
pub proof fn hexadecimal_tells_numbers_apart(n: nat, m: nat, width: nat)
    requires
        n < pow(16, width),
        m < pow(16, width),
        hexadecimal(n, width) == hexadecimal(m, width),
    ensures
        n == m,
    decreases width,
{
    reveal(pow);
    if width == 0 {
        lemma_pow0(16);
    } else {
        let e = (width - 1) as nat;
        assert(pow(16, width) == 16 * pow(16, e));
        assert(hexadecimal(n, width).drop_last() =~= hexadecimal(n / 16, e));
        assert(hexadecimal(m, width).drop_last() =~= hexadecimal(m / 16, e));
        assert(hexadecimal(n, width).last() == digit(n as int % 16));
        assert(hexadecimal(m, width).last() == digit(m as int % 16));
        lemma_digit(n as int % 16);
        lemma_digit(m as int % 16);
        hexadecimal_tells_numbers_apart(n / 16, m / 16, e);
    }
}

/// Digits are read one after the other, each worth a tenth of the one before it;
/// with any other character there is no number.
pub proof fn digits_are_read_in_order(s: Seq<char>, c: char)
    ensures
        digits_value(Seq::empty()) == Some(0nat),
        digits_value(s.push(c)) is Some <==> digits_value(s) is Some && 0x30 <= c as int <= 0x39,
        digits_value(s.push(c)) is Some ==> digits_value(s.push(c))->0 == 10 * digits_value(s)->0
            + (c as int - 0x30),
{
    assert(s.push(c).drop_last() =~= s);
}

/// A number that is written is read as the same number.
pub proof fn decimal_reads_back(n: nat)
    ensures
        digits_value(decimal(n)) == Some(n),
        n <= usize::MAX ==> usize_value(decimal(n)) == Some(n as usize),
        n <= usize::MAX ==> usize_value(seq!['+'] + decimal(n)) == Some(n as usize),
        n > usize::MAX ==> usize_value(decimal(n)) is None,
    decreases n,
{
    lemma_digit(n as int % 10);
    decimal_is_positional(n);
    if n >= 10 {
        decimal_reads_back(n / 10);
        assert(decimal(n).drop_last() =~= decimal(n / 10));
    } else {
        assert(decimal(n).drop_last() =~= Seq::empty());
    }
    assert(shows(decimal(n)[0], n as int / pow(10, (decimal(n).len() - 1) as nat) % 10));
    assert(decimal(n)[0] != '+') by {
        let d = n as int / pow(10, (decimal(n).len() - 1) as nat) % 10;
        assert(0 <= d < 10);
    }
    assert((seq!['+'] + decimal(n)).drop_first() =~= decimal(n));
}

/// A text writes a number exactly if it has digits, with at most one plus sign
/// before them, and nothing else, and the number fits.
pub proof fn numbers_are_digits(s: Seq<char>)
    ensures
        s.len() == 0 ==> usize_value(s) is None,
        s.len() > 0 && s[0] != '+' ==> (usize_value(s) is Some <==> digits_value(s) is Some
            && digits_value(s)->0 <= usize::MAX),
        s.len() > 0 && s[0] != '+' && usize_value(s) is Some ==> usize_value(s)->0
            == digits_value(s)->0,
        s.len() > 0 && s[0] == '+' ==> usize_value(seq!['+'] + s) is None,
        s.len() > 0 && s[0] != '+' ==> usize_value(seq!['+'] + s) == usize_value(s),
{
    assert((seq!['+'] + s).drop_first() =~= s);
    if s.len() > 0 && s[0] == '+' {
        lemma_digits_only(s, 0);
    }
}

/// Where there is a character that is no digit there is no number.
proof fn lemma_digits_only(s: Seq<char>, i: int)
    requires
        0 <= i < s.len(),
        !('0' <= s[i] <= '9'),
    ensures
        digits_value(s) is None,
    decreases s.len(),
{
    if i < s.len() - 1 {
        assert(s.drop_last()[i] == s[i]);
        lemma_digits_only(s.drop_last(), i);
    }
}

/// The case of a character changes exactly if it is an ASCII letter of the other
/// case, by the distance between the two alphabets.
pub proof fn ascii_letters_change_case(c: char)
    ensures
        0x41 <= c as int <= 0x5a ==> lower(c) as int == c as int + 0x20,
        !(0x41 <= c as int <= 0x5a) ==> lower(c) == c,
        0x61 <= c as int <= 0x7a ==> upper(c) as int == c as int - 0x20,
        !(0x61 <= c as int <= 0x7a) ==> upper(c) == c,
{
}

/// The characters that count as white space, by their codes.
pub proof fn white_space_by_code(c: char)
    ensures
        is_space(c) <==> (0x9 <= c as int <= 0xd || c as int == 0x20 || c as int == 0x85 || c as int
            == 0xa0 || c as int == 0x1680 || 0x2000 <= c as int <= 0x200a || c as int == 0x2028
            || c as int == 0x2029 || c as int == 0x202f || c as int == 0x205f || c as int
            == 0x3000),
{
}

} // verus!
